use vstd::prelude::*;
use vstd::set_lib::lemma_len_subset;

verus! {

/// One row of a process table: a process and, when known, the process that started it.
#[derive(Clone, Copy, Debug, PartialEq, Eq)]
pub struct ProcEntry {
    pub pid: u32,
    pub parent: Option<u32>,
}

/// No two rows of `s` describe the same process.
pub open spec fn pids_unique(s: Seq<ProcEntry>) -> bool {
    forall|i: int, j: int|
        #![trigger s[i], s[j]]
        0 <= i < s.len() && 0 <= j < s.len() && s[i].pid == s[j].pid ==> i == j
}

/// `s` has a row for `x`.
pub open spec fn pid_in(s: Seq<ProcEntry>, x: u32) -> bool {
    exists|i: int| 0 <= i < s.len() && #[trigger] s[i].pid == x
}

/// `s` records `p` as the parent of `c`.
pub open spec fn is_parent_of(s: Seq<ProcEntry>, p: u32, c: u32) -> bool {
    exists|i: int| 0 <= i < s.len() && #[trigger] s[i].pid == c && s[i].parent == Some(p)
}

/// Following parent links `d` times from `x` arrives at `root`.
pub open spec fn reaches(s: Seq<ProcEntry>, root: u32, x: u32, d: nat) -> bool
    decreases d,
{
    if d == 0 {
        x == root
    } else {
        exists|p: u32| #[trigger] is_parent_of(s, p, x) && reaches(s, root, p, (d - 1) as nat)
    }
}

/// `x` is a descendant of `root` whose graph distance from it is `d`.
pub open spec fn is_distance(s: Seq<ProcEntry>, root: u32, x: u32, d: nat) -> bool {
    &&& d > 0
    &&& reaches(s, root, x, d)
    &&& forall|e: nat| e < d ==> !#[trigger] reaches(s, root, x, e)
}

/// The `d`-th layer of the walk down from `root`, never passing through `root` again.
pub open spec fn at_level(s: Seq<ProcEntry>, root: u32, x: u32, d: nat) -> bool
    decreases d,
{
    if d == 0 {
        x == root
    } else {
        x != root && exists|p: u32|
            #[trigger] is_parent_of(s, p, x) && at_level(s, root, p, (d - 1) as nat)
    }
}

proof fn lemma_parent_unique(s: Seq<ProcEntry>, p: u32, q: u32, x: u32)
    requires
        pids_unique(s),
        is_parent_of(s, p, x),
        is_parent_of(s, q, x),
    ensures
        p == q,
{
    let i = choose|i: int| 0 <= i < s.len() && #[trigger] s[i].pid == x && s[i].parent == Some(p);
    let j = choose|j: int| 0 <= j < s.len() && #[trigger] s[j].pid == x && s[j].parent == Some(q);
    assert(s[i].pid == s[j].pid);
}

/// A layer of the walk is exactly the set of descendants at that graph distance.
proof fn lemma_level_is_distance(s: Seq<ProcEntry>, root: u32, x: u32, d: nat)
    requires
        pids_unique(s),
        d > 0,
    ensures
        at_level(s, root, x, d) <==> is_distance(s, root, x, d),
    decreases d,
{
    if at_level(s, root, x, d) {
        let p = choose|p: u32| #[trigger]
            is_parent_of(s, p, x) && at_level(s, root, p, (d - 1) as nat);
        if d == 1 {
            assert(reaches(s, root, p, 0));
            assert(reaches(s, root, x, 1));
            assert forall|e: nat| e < d implies !#[trigger] reaches(s, root, x, e) by {
                assert(e == 0);
            }
        } else {
            lemma_level_is_distance(s, root, p, (d - 1) as nat);
            assert(reaches(s, root, x, d));
            assert forall|e: nat| e < d implies !#[trigger] reaches(s, root, x, e) by {
                if e > 0 && reaches(s, root, x, e) {
                    let q = choose|q: u32| #[trigger]
                        is_parent_of(s, q, x) && reaches(s, root, q, (e - 1) as nat);
                    lemma_parent_unique(s, p, q, x);
                    assert(!reaches(s, root, p, (e - 1) as nat));
                }
            }
        }
    }
    if is_distance(s, root, x, d) {
        let p = choose|p: u32| #[trigger]
            is_parent_of(s, p, x) && reaches(s, root, p, (d - 1) as nat);
        assert(!reaches(s, root, x, 0));
        if d > 1 {
            assert forall|e: nat| e < (d - 1) as nat implies !#[trigger] reaches(s, root, p, e) by {
                if reaches(s, root, p, e) {
                    assert(reaches(s, root, x, e + 1));
                }
            }
            lemma_level_is_distance(s, root, p, (d - 1) as nat);
        }
        assert(at_level(s, root, p, (d - 1) as nat));
    }
}

/// A non-empty layer `e` means every layer from 1 to `e` is non-empty.
proof fn lemma_levels_contiguous(s: Seq<ProcEntry>, root: u32, x: u32, e: nat, j: nat)
    requires
        at_level(s, root, x, e),
        1 <= j <= e,
    ensures
        exists|y: u32| #[trigger] at_level(s, root, y, j),
    decreases e,
{
    if j < e {
        let p = choose|p: u32| #[trigger]
            is_parent_of(s, p, x) && at_level(s, root, p, (e - 1) as nat);
        lemma_levels_contiguous(s, root, p, (e - 1) as nat, j);
    }
}

proof fn lemma_distinct_pids_bounded(s: Seq<ProcEntry>, v: Seq<u32>)
    requires
        v.no_duplicates(),
        forall|k: int| #![trigger v[k]] 0 <= k < v.len() ==> pid_in(s, v[k]),
    ensures
        v.len() <= s.len(),
{
    let ps = s.map_values(|e: ProcEntry| e.pid);
    v.unique_seq_to_set();
    ps.lemma_cardinality_of_set();
    assert forall|x: u32| v.to_set().contains(x) implies ps.to_set().contains(x) by {
        let k = choose|k: int| 0 <= k < v.len() && v[k] == x;
        let i = choose|i: int| 0 <= i < s.len() && #[trigger] s[i].pid == v[k];
        assert(ps[i] == x);
    }
    lemma_len_subset(v.to_set(), ps.to_set());
}

/// A point-in-time view of the process table: each process at most once, with its parent.
pub struct ProcessSnapshot {
    entries: Vec<ProcEntry>,
}

impl View for ProcessSnapshot {
    type V = Seq<ProcEntry>;

    closed spec fn view(&self) -> Seq<ProcEntry> {
        self.entries@
    }
}

/// `s` with the row for `e.pid` set to `e`: replaced where it was present, appended where not.
pub open spec fn with_entry(s: Seq<ProcEntry>, e: ProcEntry) -> Seq<ProcEntry> {
    if exists|i: int| 0 <= i < s.len() && #[trigger] s[i].pid == e.pid {
        s.update(choose|i: int| 0 <= i < s.len() && #[trigger] s[i].pid == e.pid, e)
    } else {
        s.push(e)
    }
}

fn has_pid(v: &Vec<u32>, x: u32) -> (r: bool)
    ensures
        r == v@.contains(x),
{
    let mut i: usize = 0;
    while i < v.len()
        invariant
            i <= v.len(),
            forall|k: int| 0 <= k < i ==> v[k] != x,
        decreases v.len() - i,
    {
        if v[i] == x {
            return true;
        }
        i += 1;
    }
    false
}

fn find_pid(v: &Vec<ProcEntry>, pid: u32) -> (r: Option<usize>)
    ensures
        match r {
            Some(i) => i < v.len() && v@[i as int].pid == pid,
            None => forall|k: int| 0 <= k < v.len() ==> #[trigger] v@[k].pid != pid,
        },
{
    let mut i: usize = 0;
    while i < v.len()
        invariant
            i <= v.len(),
            forall|k: int| 0 <= k < i ==> #[trigger] v@[k].pid != pid,
        decreases v.len() - i,
    {
        if v[i].pid == pid {
            return Some(i);
        }
        i += 1;
    }
    None
}

fn copy_rows(v: &Vec<ProcEntry>) -> (r: Vec<ProcEntry>)
    ensures
        r@ == v@,
{
    let mut r: Vec<ProcEntry> = Vec::new();
    let mut i: usize = 0;
    while i < v.len()
        invariant
            i <= v.len(),
            r@ == v@.subrange(0, i as int),
        decreases v.len() - i,
    {
        r.push(v[i]);
        i += 1;
    }
    assert(r@ =~= v@);
    r
}

impl ProcessSnapshot {
    #[verifier::type_invariant]
    spec fn well_formed(self) -> bool {
        pids_unique(self.entries@)
    }

    /// An empty table.
    pub fn new() -> (r: Self)
        ensures
            r@ == Seq::<ProcEntry>::empty(),
    {
        ProcessSnapshot { entries: Vec::new() }
    }

    /// Records `pid` with `parent`, replacing any earlier row for `pid`.
    pub fn insert(&mut self, pid: u32, parent: Option<u32>)
        ensures
            final(self)@ == with_entry(old(self)@, ProcEntry { pid, parent }),
    {
        proof {
            use_type_invariant(&*self);
        }
        let e = ProcEntry { pid, parent };
        let mut rows = copy_rows(&self.entries);
        let ghost o = rows@;
        match find_pid(&rows, pid) {
            Some(i) => {
                rows.set(i, e);
                proof {
                    let s = rows@;
                    assert(s == o.update(i as int, e));
                    let c = choose|c: int| 0 <= c < o.len() && #[trigger] o[c].pid == e.pid;
                    assert(o[c].pid == o[i as int].pid);
                    assert forall|a: int, b: int|
                        #![trigger s[a], s[b]]
                        0 <= a < s.len() && 0 <= b < s.len() && s[a].pid == s[b].pid implies a == b by {
                        assert(s[a].pid == o[a].pid);
                        assert(s[b].pid == o[b].pid);
                    }
                }
            },
            None => {
                rows.push(e);
                proof {
                    let s = rows@;
                    assert(s == o.push(e));
                    assert forall|a: int, b: int|
                        #![trigger s[a], s[b]]
                        0 <= a < s.len() && 0 <= b < s.len() && s[a].pid == s[b].pid implies a == b by {
                        if a < o.len() {
                            assert(s[a] == o[a]);
                        }
                        if b < o.len() {
                            assert(s[b] == o[b]);
                        }
                    }
                }
            },
        }
        *self = ProcessSnapshot { entries: rows };
    }

    /// The number of processes in the table.
    pub fn len(&self) -> (r: usize)
        ensures
            r == self@.len(),
    {
        self.entries.len()
    }

    /// The row at `index`.
    pub fn entry(&self, index: usize) -> (r: ProcEntry)
        requires
            index < self@.len(),
        ensures
            r == self@[index as int],
    {
        self.entries[index]
    }
}

/// Row `j` is a process whose recorded parent is in `frontier`, and other than `root` unless
/// `keep_root` holds.
spec fn picked(entries: Seq<ProcEntry>, root: u32, keep_root: bool, frontier: Seq<u32>, j: int) -> bool {
    &&& (keep_root || entries[j].pid != root)
    &&& entries[j].parent.is_some()
    &&& frontier.contains(entries[j].parent.unwrap())
}

/// The processes whose recorded parent is in `frontier`; `root` left out unless `keep_root` holds.
fn next_level(entries: &Vec<ProcEntry>, root: u32, keep_root: bool, frontier: &Vec<u32>) -> (r: Vec<u32>)
    requires
        pids_unique(entries@),
    ensures
        forall|x: u32|
            r@.contains(x) <==> ((keep_root || x != root) && exists|p: u32|
                frontier@.contains(p) && #[trigger] is_parent_of(entries@, p, x)),
        r@.no_duplicates(),
        forall|k: int|
            #![trigger r@[k]]
            0 <= k < r.len() ==> pid_in(entries@, r@[k]),
{
    let mut r: Vec<u32> = Vec::new();
    let mut i: usize = 0;
    while i < entries.len()
        invariant
            i <= entries.len(),
            pids_unique(entries@),
            forall|x: u32|
                r@.contains(x) <==> exists|j: int|
                    0 <= j < i && #[trigger] entries@[j].pid == x && picked(entries@, root, keep_root, frontier@, j),
            r@.no_duplicates(),
            forall|k: int|
                #![trigger r@[k]]
                0 <= k < r.len() ==> pid_in(entries@, r@[k]),
        decreases entries.len() - i,
    {
        let e = entries[i];
        let ghost r0 = r@;
        let mut take = false;
        if keep_root || e.pid != root {
            match e.parent {
                Some(p) => {
                    take = has_pid(frontier, p);
                },
                None => {},
            }
        }
        assert(take == picked(entries@, root, keep_root, frontier@, i as int));
        if take {
            proof {
                assert forall|k: int| 0 <= k < r0.len() implies r0[k] != e.pid by {
                    assert(r0.contains(r0[k]));
                    let j = choose|j: int|
                        0 <= j < i && #[trigger] entries@[j].pid == r0[k] && picked(entries@, root, keep_root, frontier@, j);
                    assert(entries@[j].pid != entries@[i as int].pid);
                }
            }
            r.push(e.pid);
            proof {
                assert(r@ == r0.push(e.pid));
                assert forall|k: int| #![trigger r@[k]] 0 <= k < r.len() implies pid_in(entries@, r@[k]) by {
                    if k == r.len() - 1 {
                        assert(entries@[i as int].pid == r@[k]);
                    } else {
                        assert(r@[k] == r0[k]);
                    }
                }
            }
        }
        proof {
            assert forall|x: u32|
                r@.contains(x) == exists|j: int|
                    0 <= j < i + 1 && #[trigger] entries@[j].pid == x && picked(entries@, root, keep_root, frontier@, j) by {
                if !take {
                    assert(r@ == r0);
                }
                if r@.contains(x) {
                    let k = choose|k: int| 0 <= k < r@.len() && r@[k] == x;
                    if k < r0.len() {
                        assert(r0[k] == x);
                    }
                    if r0.contains(x) {
                        let j = choose|j: int|
                            0 <= j < i && #[trigger] entries@[j].pid == x && picked(entries@, root, keep_root, frontier@, j);
                        assert(0 <= j < i + 1);
                    } else {
                        assert(entries@[i as int].pid == x);
                    }
                }
                if exists|j: int|
                    0 <= j < i + 1 && #[trigger] entries@[j].pid == x && picked(entries@, root, keep_root, frontier@, j) {
                    let j = choose|j: int|
                        0 <= j < i + 1 && #[trigger] entries@[j].pid == x && picked(entries@, root, keep_root, frontier@, j);
                    if j < i {
                        assert(r0.contains(x));
                        let k = choose|k: int| 0 <= k < r0.len() && r0[k] == x;
                        assert(r@[k] == x);
                    } else {
                        assert(r@[r@.len() - 1] == x);
                    }
                }
            }
        }
        i += 1;
    }
    proof {
        assert forall|x: u32|
            r@.contains(x) <==> ((keep_root || x != root) && exists|p: u32|
                frontier@.contains(p) && #[trigger] is_parent_of(entries@, p, x)) by {
            if r@.contains(x) {
                let j = choose|j: int|
                    0 <= j < i && #[trigger] entries@[j].pid == x && picked(entries@, root, keep_root, frontier@, j);
                let p = entries@[j].parent.unwrap();
                assert(is_parent_of(entries@, p, x));
            }
            if (keep_root || x != root) && exists|p: u32| frontier@.contains(p) && #[trigger] is_parent_of(entries@, p, x) {
                let p = choose|p: u32| frontier@.contains(p) && #[trigger] is_parent_of(entries@, p, x);
                let j = choose|j: int|
                    0 <= j < entries@.len() && #[trigger] entries@[j].pid == x && entries@[j].parent == Some(p);
                assert(picked(entries@, root, keep_root, frontier@, j));
            }
        }
    }
    r
}

/// `out` lists, each once and shallowest first, exactly the layers 1 to `depth` of the walk.
spec fn layers_listed(s: Seq<ProcEntry>, root: u32, out: Seq<(u32, usize)>, depth: nat) -> bool {
    &&& depth <= out.len()
    &&& forall|k: int|
        #![trigger out[k]]
        0 <= k < out.len() ==> 1 <= out[k].1 <= depth && at_level(s, root, out[k].0, out[k].1 as nat)
    &&& forall|x: u32, e: nat|
        1 <= e <= depth && #[trigger] at_level(s, root, x, e) ==> exists|k: int|
            0 <= k < out.len() && #[trigger] out[k].0 == x && out[k].1 == e
    &&& forall|k: int, l: int|
        #![trigger out[k], out[l]]
        0 <= k < out.len() && 0 <= l < out.len() && out[k].0 == out[l].0 ==> k == l
    &&& forall|k: int, l: int| #![trigger out[k], out[l]] 0 <= k <= l < out.len() ==> out[k].1 <= out[l].1
    &&& forall|k: int|
        #![trigger out[k]]
        0 <= k < out.len() ==> pid_in(s, out[k].0)
}

proof fn lemma_layers_extend(
    s: Seq<ProcEntry>,
    root: u32,
    out: Seq<(u32, usize)>,
    next: Seq<u32>,
    depth: nat,
)
    requires
        pids_unique(s),
        s.len() <= usize::MAX,
        layers_listed(s, root, out, depth),
        next.len() > 0,
        next.no_duplicates(),
        forall|x: u32| next.contains(x) <==> at_level(s, root, x, (depth + 1) as nat),
        forall|k: int|
            #![trigger next[k]]
            0 <= k < next.len() ==> pid_in(s, next[k]),
    ensures
        out.len() + next.len() <= s.len(),
        layers_listed(
            s,
            root,
            out + next.map_values(|x: u32| (x, (depth + 1) as usize)),
            depth + 1,
        ),
{
    let m = next.map_values(|x: u32| (x, (depth + 1) as usize));
    let o = out + m;
    assert forall|k: int, j: int| #![trigger out[k], next[j]] 0 <= k < out.len() && 0 <= j < next.len() implies out[k].0 != next[j] by {
        assert(next.contains(next[j]));
        if out[k].0 == next[j] {
            lemma_level_is_distance(s, root, next[j], depth + 1);
            lemma_level_is_distance(s, root, next[j], out[k].1 as nat);
        }
    }
    let v = out.map_values(|p: (u32, usize)| p.0) + next;
    assert forall|a: int, b: int| 0 <= a < v.len() && 0 <= b < v.len() && a != b implies v[a] != v[b] by {
        if a < out.len() && b < out.len() {
            assert(v[a] == out[a].0 && v[b] == out[b].0);
        } else if a >= out.len() && b >= out.len() {
            assert(v[a] == next[a - out.len()]);
            assert(v[b] == next[b - out.len()]);
        } else if a < out.len() {
            assert(v[b] == next[b - out.len()]);
        } else {
            assert(v[a] == next[a - out.len()]);
        }
    }
    assert forall|k: int| #![trigger v[k]] 0 <= k < v.len() implies pid_in(s, v[k]) by {
        if k < out.len() {
            assert(v[k] == out[k].0);
        } else {
            assert(v[k] == next[k - out.len()]);
        }
    }
    lemma_distinct_pids_bounded(s, v);
    assert(v.len() == out.len() + next.len());
    assert forall|k: int|
        #![trigger o[k]]
        0 <= k < o.len() implies 1 <= o[k].1 <= depth + 1 && at_level(s, root, o[k].0, o[k].1 as nat) by {
        if k < out.len() {
            assert(o[k] == out[k]);
        } else {
            assert(o[k] == m[k - out.len()]);
            assert(next.contains(next[k - out.len()]));
        }
    }
    assert forall|x: u32, e: nat|
        1 <= e <= depth + 1 && #[trigger] at_level(s, root, x, e) implies exists|k: int|
            0 <= k < o.len() && #[trigger] o[k].0 == x && o[k].1 == e by {
        if e <= depth {
            let k = choose|k: int| 0 <= k < out.len() && #[trigger] out[k].0 == x && out[k].1 == e;
            assert(o[k] == out[k]);
        } else {
            assert(next.contains(x));
            let j = choose|j: int| 0 <= j < next.len() && next[j] == x;
            assert(o[out.len() + j] == m[j]);
        }
    }
    assert forall|k: int, l: int|
        #![trigger o[k], o[l]]
        0 <= k < o.len() && 0 <= l < o.len() && o[k].0 == o[l].0 implies k == l by {
        if k < out.len() {
            assert(o[k] == out[k]);
            assert(v[k] == o[k].0);
        } else {
            assert(o[k] == m[k - out.len()]);
            assert(v[k] == o[k].0);
        }
        if l < out.len() {
            assert(o[l] == out[l]);
            assert(v[l] == o[l].0);
        } else {
            assert(o[l] == m[l - out.len()]);
            assert(v[l] == o[l].0);
        }
    }
    assert forall|k: int, l: int| #![trigger o[k], o[l]] 0 <= k <= l < o.len() implies o[k].1 <= o[l].1 by {
        if k < out.len() {
            assert(o[k] == out[k]);
        } else {
            assert(o[k] == m[k - out.len()]);
        }
        if l < out.len() {
            assert(o[l] == out[l]);
        } else {
            assert(o[l] == m[l - out.len()]);
        }
    }
    assert forall|k: int|
        #![trigger o[k]]
        0 <= k < o.len() implies pid_in(s, o[k].0) by {
        if k < out.len() {
            assert(o[k] == out[k]);
        } else {
            assert(o[k] == m[k - out.len()]);
            assert(next[k - out.len()] == next[k - out.len()]);
        }
    }
}

/// Every descendant of `root` in `snapshot`, each once, tagged with its graph distance from `root`,
/// shallower entries first. `root` itself is never listed, even where the table records it as its
/// own ancestor. A root that has no row in the table (it already exited) has no descendants.
pub fn collect_descendants_with_depth(root: u32, snapshot: &ProcessSnapshot) -> (r: Vec<(u32, usize)>)
    ensures
        !pid_in(snapshot@, root) ==> r@.len() == 0,
        forall|k: int| 0 <= k < r.len() ==> is_distance(snapshot@, root, #[trigger] r@[k].0, r@[k].1 as nat),
        pid_in(snapshot@, root) ==> forall|x: u32, d: nat|
            #[trigger] is_distance(snapshot@, root, x, d) ==> exists|k: int|
                0 <= k < r.len() && #[trigger] r@[k].0 == x && r@[k].1 == d,
        forall|k: int, l: int|
            #![trigger r@[k], r@[l]]
            0 <= k < r.len() && 0 <= l < r.len() && r@[k].0 == r@[l].0 ==> k == l,
        forall|k: int, l: int| #![trigger r@[k], r@[l]] 0 <= k <= l < r.len() ==> r@[k].1 <= r@[l].1,
{
    proof {
        use_type_invariant(snapshot);
    }
    let entries = &snapshot.entries;
    let ghost s = entries@;
    match find_pid(entries, root) {
        Some(i) => {
            assert(s[i as int].pid == root);
        },
        None => {
            return Vec::new();
        },
    }
    let mut out: Vec<(u32, usize)> = Vec::new();
    let mut frontier: Vec<u32> = Vec::new();
    frontier.push(root);
    let mut depth: usize = 0;
    let n = entries.len();
    proof {
        assert(frontier@ == seq![root]);
        assert forall|x: u32| frontier@.contains(x) <==> at_level(s, root, x, 0) by {
            if x == root {
                assert(frontier@[0] == x);
            }
        }
    }
    loop
        invariant
            s == entries@,
            s == snapshot@,
            pids_unique(s),
            forall|x: u32| frontier@.contains(x) <==> at_level(s, root, x, depth as nat),
            layers_listed(s, root, out@, depth as nat),
            out.len() <= s.len(),
            n == s.len(),
        ensures
            s == snapshot@,
            pids_unique(s),
            layers_listed(s, root, out@, depth as nat),
            forall|x: u32, e: nat| e > depth ==> !#[trigger] at_level(s, root, x, e),
        decreases s.len() - out.len(),
    {
        let next = next_level(entries, root, false, &frontier);
        proof {
            assert forall|x: u32| next@.contains(x) <==> at_level(s, root, x, (depth + 1) as nat) by {
                if next@.contains(x) {
                    let p = choose|p: u32| frontier@.contains(p) && #[trigger] is_parent_of(s, p, x);
                    assert(at_level(s, root, p, depth as nat));
                }
                if at_level(s, root, x, (depth + 1) as nat) {
                    let p = choose|p: u32| #[trigger] is_parent_of(s, p, x) && at_level(s, root, p, depth as nat);
                    assert(frontier@.contains(p));
                }
            }
        }
        if next.len() == 0 {
            proof {
                assert forall|x: u32, e: nat| e > depth implies !#[trigger] at_level(s, root, x, e) by {
                    if at_level(s, root, x, e) {
                        lemma_levels_contiguous(s, root, x, e, (depth + 1) as nat);
                        let y = choose|y: u32| #[trigger] at_level(s, root, y, (depth + 1) as nat);
                        assert(next@.contains(y));
                    }
                }
            }
            break;
        }
        let ghost out0 = out@;
        proof {
            lemma_layers_extend(s, root, out0, next@, depth as nat);
        }
        let mut i: usize = 0;
        while i < next.len()
            invariant
                i <= next.len(),
                out@ == out0 + next@.take(i as int).map_values(|x: u32| (x, (depth + 1) as usize)),
                depth < usize::MAX,
            decreases next.len() - i,
        {
            out.push((next[i], depth + 1));
            proof {
                assert(next@.take(i + 1) == next@.take(i as int).push(next@[i as int]));
                assert(next@.take(i + 1).map_values(|x: u32| (x, (depth + 1) as usize))
                    =~= next@.take(i as int).map_values(|x: u32| (x, (depth + 1) as usize)).push((next@[i as int], (depth + 1) as usize)));
            }
            i += 1;
        }
        proof {
            assert(next@.take(next.len() as int) == next@);
        }
        depth = depth + 1;
        frontier = next;
    }
    proof {
        assert forall|k: int| 0 <= k < out.len() implies is_distance(s, root, #[trigger] out@[k].0, out@[k].1 as nat) by {
            lemma_level_is_distance(s, root, out@[k].0, out@[k].1 as nat);
        }
        assert forall|x: u32, d: nat| #[trigger] is_distance(s, root, x, d) implies exists|k: int|
            0 <= k < out.len() && #[trigger] out@[k].0 == x && out@[k].1 == d by {
            lemma_level_is_distance(s, root, x, d);
        }
    }
    out
}

/// The processes that `snapshot` records as started by `pid`, in table order; a row naming `pid`
/// as its own parent lists `pid` among its children.
pub fn children_of(snapshot: &ProcessSnapshot, pid: u32) -> (r: Vec<u32>)
    ensures
        forall|x: u32| r@.contains(x) <==> is_parent_of(snapshot@, pid, x),
        r@.no_duplicates(),
{
    proof {
        use_type_invariant(snapshot);
    }
    let mut parents: Vec<u32> = Vec::new();
    parents.push(pid);
    let r = next_level(&snapshot.entries, pid, true, &parents);
    proof {
        assert forall|x: u32| r@.contains(x) <==> is_parent_of(snapshot@, pid, x) by {
            if is_parent_of(snapshot@, pid, x) {
                assert(parents@[0] == pid);
                assert(parents@.contains(pid));
            }
            if r@.contains(x) {
                let p = choose|p: u32| parents@.contains(p) && #[trigger] is_parent_of(snapshot@, p, x);
                assert(parents@ == seq![pid]);
            }
        }
    }
    r
}

} // verus!
