use vstd::prelude::*;

verus! {

/// Time between two liveness checks while the process is asked to stop.
pub const POLL_INTERVAL_MS: u64 = 200;

/// Time left to the process between the forceful kill and the last liveness check.
pub const SETTLE_MS: u64 = 300;

/// How one process ended up.
#[derive(Clone, Copy, Debug, PartialEq, Eq)]
pub enum KillOutcome {
    KilledGracefully,
    KilledForcefully,
    Failed,
}

/// Where a termination stands.
#[derive(Clone, Copy, Debug, PartialEq, Eq)]
pub enum KillPhase {
    /// The graceful request was sent; waiting for the process to go.
    Graceful,
    /// The forceful kill was sent; one last check is due.
    Forceful,
    Finished(KillOutcome),
}

/// What the caller does next for a termination in progress.
#[derive(Clone, Copy, Debug, PartialEq, Eq)]
pub enum KillAction {
    /// Sleep this many milliseconds, then report whether the process is still there.
    Poll(u64),
    /// Send the forceful kill, sleep this many milliseconds, then report whether it is still there.
    Force(u64),
    /// Nothing more to do.
    Done(KillOutcome),
}

/// The escalating termination of one process: ask gracefully, watch it for the timeout, then
/// kill it forcefully and check once more.
#[derive(Clone, Copy, Debug, PartialEq, Eq)]
pub struct Escalation {
    pub pid: u32,
    pub depth: usize,
    pub timeout_secs: u64,
    pub elapsed_ms: u64,
    pub phase: KillPhase,
}

/// `elapsed_ms` is still inside a timeout of `timeout_secs` seconds.
pub open spec fn within_timeout(elapsed_ms: u64, timeout_secs: u64) -> bool {
    (elapsed_ms as int) < (timeout_secs as int) * 1000
}

/// `a + b`, held at `u64::MAX`.
pub open spec fn sat_add(a: u64, b: u64) -> u64 {
    if a as int + b as int > u64::MAX as int {
        u64::MAX
    } else {
        (a + b) as u64
    }
}

/// The state right after the graceful request went out, and the first action.
pub open spec fn begin_spec(pid: u32, depth: usize, timeout_secs: u64) -> (Escalation, KillAction) {
    if within_timeout(0, timeout_secs) {
        (
            Escalation { pid, depth, timeout_secs, elapsed_ms: 0, phase: KillPhase::Graceful },
            KillAction::Poll(POLL_INTERVAL_MS),
        )
    } else {
        (
            Escalation { pid, depth, timeout_secs, elapsed_ms: 0, phase: KillPhase::Forceful },
            KillAction::Force(SETTLE_MS),
        )
    }
}

/// The state and action after a liveness check that found the process `alive` or gone.
pub open spec fn observe_spec(e: Escalation, alive: bool) -> (Escalation, KillAction) {
    match e.phase {
        KillPhase::Graceful => {
            let elapsed = sat_add(e.elapsed_ms, POLL_INTERVAL_MS);
            if !alive {
                (
                    Escalation {
                        elapsed_ms: elapsed,
                        phase: KillPhase::Finished(KillOutcome::KilledGracefully),
                        ..e
                    },
                    KillAction::Done(KillOutcome::KilledGracefully),
                )
            } else if within_timeout(elapsed, e.timeout_secs) {
                (Escalation { elapsed_ms: elapsed, ..e }, KillAction::Poll(POLL_INTERVAL_MS))
            } else {
                (
                    Escalation { elapsed_ms: elapsed, phase: KillPhase::Forceful, ..e },
                    KillAction::Force(SETTLE_MS),
                )
            }
        },
        KillPhase::Forceful => {
            let o = if alive {
                KillOutcome::Failed
            } else {
                KillOutcome::KilledForcefully
            };
            (Escalation { phase: KillPhase::Finished(o), ..e }, KillAction::Done(o))
        },
        KillPhase::Finished(o) => (e, KillAction::Done(o)),
    }
}

fn timeout_left(elapsed_ms: u64, timeout_secs: u64) -> (r: bool)
    ensures
        r == within_timeout(elapsed_ms, timeout_secs),
{
    let q = elapsed_ms / 1000;
    assert((q < timeout_secs) == within_timeout(elapsed_ms, timeout_secs)) by (nonlinear_arith)
        requires
            q == elapsed_ms as int / 1000,
            elapsed_ms >= 0,
    {
    }
    q < timeout_secs
}

impl Escalation {
    /// Starts the termination of `pid` once the graceful request has been sent. With a timeout of
    /// zero the first action is already the forceful kill.
    pub fn begin(pid: u32, depth: usize, timeout_secs: u64) -> (r: (Escalation, KillAction))
        ensures
            r == begin_spec(pid, depth, timeout_secs),
            timeout_secs == 0 ==> r.1 == KillAction::Force(SETTLE_MS),
            timeout_secs > 0 ==> r.1 == KillAction::Poll(POLL_INTERVAL_MS),
    {
        if timeout_left(0, timeout_secs) {
            (
                Escalation { pid, depth, timeout_secs, elapsed_ms: 0, phase: KillPhase::Graceful },
                KillAction::Poll(POLL_INTERVAL_MS),
            )
        } else {
            (
                Escalation { pid, depth, timeout_secs, elapsed_ms: 0, phase: KillPhase::Forceful },
                KillAction::Force(SETTLE_MS),
            )
        }
    }

    /// Takes in the result of the liveness check that the last action asked for.
    pub fn observe(&mut self, alive: bool) -> (r: KillAction)
        ensures
            (*final(self), r) == observe_spec(*old(self), alive),
    {
        match self.phase {
            KillPhase::Graceful => {
                let elapsed = self.elapsed_ms.saturating_add(POLL_INTERVAL_MS);
                self.elapsed_ms = elapsed;
                if !alive {
                    self.phase = KillPhase::Finished(KillOutcome::KilledGracefully);
                    KillAction::Done(KillOutcome::KilledGracefully)
                } else if timeout_left(elapsed, self.timeout_secs) {
                    KillAction::Poll(POLL_INTERVAL_MS)
                } else {
                    self.phase = KillPhase::Forceful;
                    KillAction::Force(SETTLE_MS)
                }
            },
            KillPhase::Forceful => {
                let o = if alive {
                    KillOutcome::Failed
                } else {
                    KillOutcome::KilledForcefully
                };
                self.phase = KillPhase::Finished(o);
                KillAction::Done(o)
            },
            KillPhase::Finished(o) => KillAction::Done(o),
        }
    }

    /// The outcome, once the termination has finished.
    pub fn outcome(&self) -> (r: Option<KillOutcome>)
        ensures
            r == match self.phase {
                KillPhase::Finished(o) => Some(o),
                _ => None,
            },
    {
        match self.phase {
            KillPhase::Finished(o) => Some(o),
            _ => None,
        }
    }
}

/// A process that is already gone when first checked, under a timeout of at least one second,
/// counts as stopped gracefully, and no forceful kill is ever asked for.
pub proof fn lemma_absent_process_stops_gracefully(pid: u32, depth: usize, timeout_secs: u64)
    requires
        timeout_secs > 0,
    ensures
        begin_spec(pid, depth, timeout_secs).1 == KillAction::Poll(POLL_INTERVAL_MS),
        observe_spec(begin_spec(pid, depth, timeout_secs).0, false).1 == KillAction::Done(
            KillOutcome::KilledGracefully,
        ),
        observe_spec(begin_spec(pid, depth, timeout_secs).0, false).0.phase == KillPhase::Finished(
            KillOutcome::KilledGracefully,
        ),
{
}

/// With a zero timeout no graceful wait happens: the first action is the forceful kill, and the
/// check after it decides between a forceful kill and a failure.
pub proof fn lemma_zero_timeout_forces_at_once(pid: u32, depth: usize, alive: bool)
    ensures
        begin_spec(pid, depth, 0).1 == KillAction::Force(SETTLE_MS),
        begin_spec(pid, depth, 0).0.phase == KillPhase::Forceful,
        observe_spec(begin_spec(pid, depth, 0).0, alive).1 == KillAction::Done(
            if alive {
                KillOutcome::Failed
            } else {
                KillOutcome::KilledForcefully
            },
        ),
{
}

} // verus!
