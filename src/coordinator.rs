use vstd::prelude::*;
use crate::escalation::KillOutcome;
use crate::tree::{collect_descendants_with_depth, is_distance, pid_in, ProcessSnapshot};

verus! {

/// A process to terminate, with its distance from the root of the request (0 for the root).
#[derive(Clone, Copy, Debug, PartialEq, Eq, Structural)]
pub struct KillTarget {
    pub pid: u32,
    pub depth: usize,
}

/// The targets of one kill-tree request: descendants first, deepest first, then the root.
pub struct KillPlan {
    pub descendants: Vec<KillTarget>,
    pub root: KillTarget,
}

/// `v` holds a target for `x` at depth `d`.
pub open spec fn lists_target(v: Seq<KillTarget>, x: u32, d: nat) -> bool {
    exists|k: int| 0 <= k < v.len() && #[trigger] v[k].pid == x && v[k].depth == d
}

/// Builds the plan for terminating `root` and, when `kill_children` holds, every descendant of it
/// that `snapshot` records: each descendant once, at its graph distance, deepest first. A root
/// with no row in `snapshot` has no descendants.
pub fn plan_kill(root: u32, snapshot: &ProcessSnapshot, kill_children: bool) -> (r: KillPlan)
    ensures
        r.root == (KillTarget { pid: root, depth: 0 }),
        !kill_children ==> r.descendants@.len() == 0,
        !pid_in(snapshot@, root) ==> r.descendants@.len() == 0,
        kill_children ==> forall|k: int|
            0 <= k < r.descendants@.len() ==> is_distance(
                snapshot@,
                root,
                #[trigger] r.descendants@[k].pid,
                r.descendants@[k].depth as nat,
            ),
        kill_children && pid_in(snapshot@, root) ==> forall|x: u32, d: nat|
            #[trigger] is_distance(snapshot@, root, x, d) ==> lists_target(r.descendants@, x, d),
        forall|k: int, l: int|
            #![trigger r.descendants@[k], r.descendants@[l]]
            0 <= k < r.descendants@.len() && 0 <= l < r.descendants@.len()
                && r.descendants@[k].pid == r.descendants@[l].pid ==> k == l,
        forall|k: int, l: int|
            #![trigger r.descendants@[k], r.descendants@[l]]
            0 <= k <= l < r.descendants@.len() ==> r.descendants@[k].depth >= r.descendants@[l].depth,
{
    let mut descendants: Vec<KillTarget> = Vec::new();
    if kill_children {
        let found = collect_descendants_with_depth(root, snapshot);
        let n = found.len();
        let mut i: usize = 0;
        while i < n
            invariant
                n == found.len(),
                i <= n,
                descendants@.len() == i,
                forall|k: int|
                    #![trigger descendants@[k]]
                    0 <= k < i ==> descendants@[k].pid == found@[n - 1 - k].0
                        && descendants@[k].depth == found@[n - 1 - k].1,
            decreases n - i,
        {
            let (pid, depth) = found[n - 1 - i];
            descendants.push(KillTarget { pid, depth });
            i += 1;
        }
        proof {
            assert forall|k: int|
                0 <= k < descendants@.len() implies is_distance(
                    snapshot@,
                    root,
                    #[trigger] descendants@[k].pid,
                    descendants@[k].depth as nat,
                ) by {
                assert(found@[n - 1 - k] == found@[n - 1 - k]);
            }
            assert forall|x: u32, d: nat| pid_in(snapshot@, root) && #[trigger] is_distance(snapshot@, root, x, d) implies lists_target(
                descendants@,
                x,
                d,
            ) by {
                let j = choose|j: int| 0 <= j < found@.len() && #[trigger] found@[j].0 == x && found@[j].1 == d;
                let k = n - 1 - j;
                assert(n - 1 - k == j);
                assert(descendants@[k].pid == found@[j].0 && descendants@[k].depth == found@[j].1);
                assert(0 <= k < descendants@.len() && descendants@[k].pid == x && descendants@[k].depth == d);
            }
            assert forall|k: int, l: int|
                #![trigger descendants@[k], descendants@[l]]
                0 <= k < descendants@.len() && 0 <= l < descendants@.len()
                    && descendants@[k].pid == descendants@[l].pid implies k == l by {
                assert(found@[n - 1 - k] == found@[n - 1 - k] && found@[n - 1 - l] == found@[n - 1 - l]);
            }
            assert forall|k: int, l: int|
                #![trigger descendants@[k], descendants@[l]]
                0 <= k <= l < descendants@.len() implies descendants@[k].depth >= descendants@[l].depth by {
                assert(found@[n - 1 - l] == found@[n - 1 - l] && found@[n - 1 - k] == found@[n - 1 - k]);
            }
        }
    }
    KillPlan { descendants, root: KillTarget { pid: root, depth: 0 } }
}

/// How one target of a request ended.
#[derive(Clone, Copy, Debug, PartialEq, Eq)]
pub struct KillRecord {
    pub target: KillTarget,
    pub outcome: KillOutcome,
}

/// The outcomes of one kill-tree request, in the order they were recorded: the planned
/// descendants' in any order, each once, and the planned root's only after all of them.
pub struct KillReport {
    records: Vec<KillRecord>,
    targets: Vec<KillTarget>,
    root: KillTarget,
    pending: usize,
    root_recorded: bool,
}

impl View for KillReport {
    type V = Seq<KillRecord>;

    closed spec fn view(&self) -> Seq<KillRecord> {
        self.records@
    }
}

/// Some record among the first `n` of `records` is for `t`.
pub open spec fn recorded_among(records: Seq<KillRecord>, n: int, t: KillTarget) -> bool {
    exists|k: int| 0 <= k < n && k < records.len() && #[trigger] records[k].target == t
}

fn copy_targets(v: &Vec<KillTarget>) -> (r: Vec<KillTarget>)
    ensures
        r@ == v@,
{
    let mut r: Vec<KillTarget> = Vec::new();
    let mut i: usize = 0;
    while i < v.len()
        invariant
            i <= v.len(),
            r@ == v@.subrange(0, i as int),
        decreases v.len() - i,
    {
        r.push(v[i]);
        i += 1;
    }
    assert(r@ =~= v@);
    r
}

fn has_target(v: &Vec<KillTarget>, t: KillTarget) -> (r: bool)
    ensures
        r == v@.contains(t),
{
    let mut i: usize = 0;
    while i < v.len()
        invariant
            i <= v.len(),
            forall|k: int| 0 <= k < i ==> v@[k] != t,
        decreases v.len() - i,
    {
        if v[i] == t {
            return true;
        }
        i += 1;
    }
    false
}

fn has_record_for(v: &Vec<KillRecord>, t: KillTarget) -> (r: bool)
    ensures
        r == recorded_among(v@, v@.len() as int, t),
{
    let mut i: usize = 0;
    while i < v.len()
        invariant
            i <= v.len(),
            forall|k: int| 0 <= k < i ==> v@[k].target != t,
        decreases v.len() - i,
    {
        if v[i].target == t {
            return true;
        }
        i += 1;
    }
    false
}

impl KillReport {
    /// The descendants whose outcomes the report awaits.
    pub closed spec fn awaited(&self) -> Seq<KillTarget> {
        self.targets@
    }

    /// The root whose outcome comes last.
    pub closed spec fn root_target(&self) -> KillTarget {
        self.root
    }

    /// How many descendant outcomes are still to come.
    pub closed spec fn outstanding(&self) -> nat {
        self.pending as nat
    }

    /// Whether the root's outcome is in.
    pub closed spec fn has_root(&self) -> bool {
        self.root_recorded
    }

    /// The descendant outcomes received so far come first, each for a different awaited
    /// descendant; the root's outcome is in only once no descendant outcome is outstanding, and
    /// then it is the last record.
    pub closed spec fn well_formed(&self) -> bool {
        let n = self.targets@.len() - self.pending;
        &&& self.pending <= self.targets@.len()
        &&& self.records@.len() == n + if self.root_recorded {
            1int
        } else {
            0int
        }
        &&& forall|k: int| 0 <= k < n ==> self.targets@.contains(#[trigger] self.records@[k].target)
        &&& forall|k: int, l: int|
            #![trigger self.records@[k], self.records@[l]]
            0 <= k < n && 0 <= l < n && k != l ==> self.records@[k].target != self.records@[l].target
        &&& self.root_recorded ==> self.pending == 0 && self.records@.last().target == self.root
    }

    /// An empty report for `plan`: it awaits one outcome per planned descendant, then the root's.
    pub fn new(plan: &KillPlan) -> (r: Self)
        ensures
            r.well_formed(),
            r@ == Seq::<KillRecord>::empty(),
            r.awaited() == plan.descendants@,
            r.root_target() == plan.root,
            r.outstanding() == plan.descendants@.len(),
            !r.has_root(),
    {
        let targets = copy_targets(&plan.descendants);
        let pending = targets.len();
        KillReport { records: Vec::new(), targets, root: plan.root, pending, root_recorded: false }
    }

    /// Records a descendant's outcome; refused (returning false, nothing changed) once the root's
    /// outcome is in, when no descendant outcome is outstanding, for a target the plan does not
    /// list among the descendants, or for one already recorded.
    pub fn record_descendant(&mut self, record: KillRecord) -> (accepted: bool)
        requires
            old(self).well_formed(),
        ensures
            final(self).well_formed(),
            final(self).awaited() == old(self).awaited(),
            final(self).root_target() == old(self).root_target(),
            accepted == (!old(self).has_root() && old(self).outstanding() > 0
                && old(self).awaited().contains(record.target) && !recorded_among(
                old(self)@,
                old(self)@.len() as int,
                record.target,
            )),
            accepted ==> final(self)@ == old(self)@.push(record) && final(self).outstanding() + 1
                == old(self).outstanding() && !final(self).has_root(),
            !accepted ==> final(self)@ == old(self)@ && final(self).outstanding()
                == old(self).outstanding() && final(self).has_root() == old(self).has_root(),
    {
        if self.root_recorded || self.pending == 0 {
            return false;
        }
        if !has_target(&self.targets, record.target) || has_record_for(&self.records, record.target) {
            return false;
        }
        let ghost n0 = self.targets@.len() - self.pending;
        self.records.push(record);
        self.pending = self.pending - 1;
        proof {
            let n = self.targets@.len() - self.pending;
            assert(n == n0 + 1);
            assert forall|k: int| 0 <= k < n implies self.targets@.contains(#[trigger] self.records@[k].target) by {
                if k < n0 {
                    assert(self.records@[k] == old(self).records@[k]);
                }
            }
            assert forall|k: int, l: int|
                #![trigger self.records@[k], self.records@[l]]
                0 <= k < n && 0 <= l < n && k != l implies self.records@[k].target != self.records@[l].target by {
                if k < n0 {
                    assert(self.records@[k] == old(self).records@[k]);
                }
                if l < n0 {
                    assert(self.records@[l] == old(self).records@[l]);
                }
                if k == n0 {
                    assert(!recorded_among(old(self).records@, old(self).records@.len() as int, record.target));
                    assert(old(self).records@[l].target != record.target);
                }
                if l == n0 {
                    assert(!recorded_among(old(self).records@, old(self).records@.len() as int, record.target));
                    assert(old(self).records@[k].target != record.target);
                }
            }
        }
        true
    }

    /// Records the root's outcome; refused (returning false, nothing changed) while descendant
    /// outcomes are outstanding, for a target other than the planned root, or when it is already in.
    pub fn record_root(&mut self, record: KillRecord) -> (accepted: bool)
        requires
            old(self).well_formed(),
        ensures
            final(self).well_formed(),
            final(self).awaited() == old(self).awaited(),
            final(self).root_target() == old(self).root_target(),
            accepted == (!old(self).has_root() && old(self).outstanding() == 0
                && record.target == old(self).root_target()),
            accepted ==> final(self)@ == old(self)@.push(record) && final(self).has_root()
                && final(self).outstanding() == 0,
            !accepted ==> final(self)@ == old(self)@ && final(self).outstanding()
                == old(self).outstanding() && final(self).has_root() == old(self).has_root(),
    {
        if self.root_recorded || self.pending != 0 || record.target != self.root {
            return false;
        }
        self.records.push(record);
        self.root_recorded = true;
        proof {
            let n = self.targets@.len() - self.pending;
            assert forall|k: int| 0 <= k < n implies self.targets@.contains(#[trigger] self.records@[k].target) by {
                assert(self.records@[k] == old(self).records@[k]);
            }
            assert forall|k: int, l: int|
                #![trigger self.records@[k], self.records@[l]]
                0 <= k < n && 0 <= l < n && k != l implies self.records@[k].target != self.records@[l].target by {
                assert(self.records@[k] == old(self).records@[k]);
                assert(self.records@[l] == old(self).records@[l]);
            }
        }
        true
    }

    /// Whether the root's outcome is in.
    pub fn is_complete(&self) -> (r: bool)
        ensures
            r == self.has_root(),
    {
        self.root_recorded
    }

    /// The records, in the order they came in.
    pub fn records(&self) -> (r: &Vec<KillRecord>)
        ensures
            r@ == self@,
    {
        &self.records
    }
}

/// Once the root's outcome is in, the descendant outcomes all came before it: one record per
/// awaited descendant, each for a different one of them, followed by the planned root's record.
pub proof fn lemma_root_recorded_last(report: KillReport)
    requires
        report.well_formed(),
        report.has_root(),
    ensures
        report.outstanding() == 0,
        report@.len() == report.awaited().len() + 1,
        report@.last().target == report.root_target(),
        forall|k: int| 0 <= k < report.awaited().len() ==> report.awaited().contains(#[trigger] report@[k].target),
        forall|k: int, l: int|
            #![trigger report@[k], report@[l]]
            0 <= k < report.awaited().len() && 0 <= l < report.awaited().len() && k != l
                ==> report@[k].target != report@[l].target,
{
}

} // verus!
