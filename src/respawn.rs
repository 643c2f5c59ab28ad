use vstd::prelude::*;

verus! {

/// Where a supervised session stands.
#[derive(Clone, Copy, Debug, PartialEq, Eq)]
pub enum SupervisorPhase {
    /// About to look for a pending cancellation before the next launch.
    Starting,
    /// The command is being launched.
    Launching,
    /// The child runs; it is checked once per check interval.
    Running,
    /// The child exited; waiting out the restart delay.
    Delaying,
    /// The session is over.
    Terminated,
}

/// What the caller observed for the action it was given.
#[derive(Clone, Copy, Debug, PartialEq, Eq)]
pub enum SupervisorEvent {
    /// Whether a cancellation was pending.
    CancelChecked(bool),
    /// Whether the launch succeeded.
    Launched(bool),
    /// After one check interval: whether a cancellation was pending, whether the child exited.
    Ticked { cancelled: bool, exited: bool },
    /// The restart delay has passed.
    Slept,
}

/// What the caller does next for a supervised session.
#[derive(Clone, Copy, Debug, PartialEq, Eq)]
pub enum SupervisorAction {
    /// Look for a pending cancellation and report it.
    CheckCancel,
    /// Launch the command and report whether that worked.
    Launch,
    /// Sleep this many seconds, then report cancellation and whether the child exited.
    Wait(u64),
    /// Sleep this many seconds (the restart delay), then report that.
    Delay(u64),
    /// Kill the child if it still runs; the session is over.
    KillChild,
    /// The session is over.
    Stop,
}

/// A respawn session: relaunches a command each time it exits, until the restart budget is spent,
/// a launch fails, or the session is cancelled. Cancellation is looked for before each launch and
/// once per check interval, so it takes effect within one check interval.
#[derive(Clone, Copy, Debug, PartialEq, Eq)]
pub struct Supervisor {
    pub check_interval_secs: u64,
    pub restart_delay_secs: u64,
    pub max_restarts: u32,
    pub restarts: u32,
    pub phase: SupervisorPhase,
}

/// A fresh session, about to check for cancellation before its first launch.
pub open spec fn start_spec(check_interval_secs: u64, restart_delay_secs: u64, max_restarts: u32) -> Supervisor {
    Supervisor {
        check_interval_secs,
        restart_delay_secs,
        max_restarts,
        restarts: 0,
        phase: SupervisorPhase::Starting,
    }
}

/// The action a session in state `s` waits to see done.
pub open spec fn pending_spec(s: Supervisor) -> SupervisorAction {
    match s.phase {
        SupervisorPhase::Starting => SupervisorAction::CheckCancel,
        SupervisorPhase::Launching => SupervisorAction::Launch,
        SupervisorPhase::Running => SupervisorAction::Wait(s.check_interval_secs),
        SupervisorPhase::Delaying => SupervisorAction::Delay(s.restart_delay_secs),
        SupervisorPhase::Terminated => SupervisorAction::Stop,
    }
}

/// The next state and action after `e`; an event that the phase does not wait for changes nothing.
pub open spec fn step_spec(s: Supervisor, e: SupervisorEvent) -> (Supervisor, SupervisorAction) {
    match (s.phase, e) {
        (SupervisorPhase::Starting, SupervisorEvent::CancelChecked(cancelled)) => {
            if cancelled {
                (Supervisor { phase: SupervisorPhase::Terminated, ..s }, SupervisorAction::Stop)
            } else {
                (Supervisor { phase: SupervisorPhase::Launching, ..s }, SupervisorAction::Launch)
            }
        },
        (SupervisorPhase::Launching, SupervisorEvent::Launched(ok)) => {
            if ok {
                (
                    Supervisor { phase: SupervisorPhase::Running, ..s },
                    SupervisorAction::Wait(s.check_interval_secs),
                )
            } else {
                (Supervisor { phase: SupervisorPhase::Terminated, ..s }, SupervisorAction::Stop)
            }
        },
        (SupervisorPhase::Running, SupervisorEvent::Ticked { cancelled, exited }) => {
            if cancelled {
                (Supervisor { phase: SupervisorPhase::Terminated, ..s }, SupervisorAction::KillChild)
            } else if exited {
                let n = if s.restarts == u32::MAX {
                    u32::MAX
                } else {
                    (s.restarts + 1) as u32
                };
                if n >= s.max_restarts {
                    (
                        Supervisor { restarts: n, phase: SupervisorPhase::Terminated, ..s },
                        SupervisorAction::Stop,
                    )
                } else {
                    (
                        Supervisor { restarts: n, phase: SupervisorPhase::Delaying, ..s },
                        SupervisorAction::Delay(s.restart_delay_secs),
                    )
                }
            } else {
                (s, SupervisorAction::Wait(s.check_interval_secs))
            }
        },
        (SupervisorPhase::Delaying, SupervisorEvent::Slept) => {
            (Supervisor { phase: SupervisorPhase::Starting, ..s }, SupervisorAction::CheckCancel)
        },
        _ => (s, pending_spec(s)),
    }
}

impl Supervisor {
    /// A fresh session; its first action is the check for a pending cancellation.
    pub fn start(check_interval_secs: u64, restart_delay_secs: u64, max_restarts: u32) -> (r: (
        Supervisor,
        SupervisorAction,
    ))
        ensures
            r.0 == start_spec(check_interval_secs, restart_delay_secs, max_restarts),
            r.1 == SupervisorAction::CheckCancel,
    {
        (
            Supervisor {
                check_interval_secs,
                restart_delay_secs,
                max_restarts,
                restarts: 0,
                phase: SupervisorPhase::Starting,
            },
            SupervisorAction::CheckCancel,
        )
    }

    /// The action this session waits to see done.
    pub fn pending(&self) -> (r: SupervisorAction)
        ensures
            r == pending_spec(*self),
    {
        match self.phase {
            SupervisorPhase::Starting => SupervisorAction::CheckCancel,
            SupervisorPhase::Launching => SupervisorAction::Launch,
            SupervisorPhase::Running => SupervisorAction::Wait(self.check_interval_secs),
            SupervisorPhase::Delaying => SupervisorAction::Delay(self.restart_delay_secs),
            SupervisorPhase::Terminated => SupervisorAction::Stop,
        }
    }

    /// Takes in what the caller observed and returns the next action.
    pub fn step(&mut self, event: SupervisorEvent) -> (r: SupervisorAction)
        ensures
            (*final(self), r) == step_spec(*old(self), event),
    {
        match (self.phase, event) {
            (SupervisorPhase::Starting, SupervisorEvent::CancelChecked(cancelled)) => {
                if cancelled {
                    self.phase = SupervisorPhase::Terminated;
                    SupervisorAction::Stop
                } else {
                    self.phase = SupervisorPhase::Launching;
                    SupervisorAction::Launch
                }
            },
            (SupervisorPhase::Launching, SupervisorEvent::Launched(ok)) => {
                if ok {
                    self.phase = SupervisorPhase::Running;
                    SupervisorAction::Wait(self.check_interval_secs)
                } else {
                    self.phase = SupervisorPhase::Terminated;
                    SupervisorAction::Stop
                }
            },
            (SupervisorPhase::Running, SupervisorEvent::Ticked { cancelled, exited }) => {
                if cancelled {
                    self.phase = SupervisorPhase::Terminated;
                    SupervisorAction::KillChild
                } else if exited {
                    let n = self.restarts.saturating_add(1);
                    self.restarts = n;
                    if n >= self.max_restarts {
                        self.phase = SupervisorPhase::Terminated;
                        SupervisorAction::Stop
                    } else {
                        self.phase = SupervisorPhase::Delaying;
                        SupervisorAction::Delay(self.restart_delay_secs)
                    }
                } else {
                    SupervisorAction::Wait(self.check_interval_secs)
                }
            },
            (SupervisorPhase::Delaying, SupervisorEvent::Slept) => {
                self.phase = SupervisorPhase::Starting;
                SupervisorAction::CheckCancel
            },
            _ => self.pending(),
        }
    }

    /// Whether the session is over.
    pub fn is_terminated(&self) -> (r: bool)
        ensures
            r == (self.phase == SupervisorPhase::Terminated),
    {
        match self.phase {
            SupervisorPhase::Terminated => true,
            _ => false,
        }
    }
}

/// What a child that exits at once, under a session that is never cancelled and whose launches
/// all succeed, reports for the action a session in state `s` waits for.
pub open spec fn always_exiting_event(s: Supervisor) -> SupervisorEvent {
    match s.phase {
        SupervisorPhase::Starting => SupervisorEvent::CancelChecked(false),
        SupervisorPhase::Launching => SupervisorEvent::Launched(true),
        SupervisorPhase::Running => SupervisorEvent::Ticked { cancelled: false, exited: true },
        _ => SupervisorEvent::Slept,
    }
}

/// The state after `steps` events of a child that always exits at once, and how many launches
/// and restart delays those steps asked for.
pub open spec fn run_always_exiting(s: Supervisor, steps: nat) -> (Supervisor, nat, nat)
    decreases steps,
{
    if steps == 0 {
        (s, 0, 0)
    } else {
        let (t, a) = step_spec(s, always_exiting_event(s));
        let (u, launches, delays) = run_always_exiting(t, (steps - 1) as nat);
        (
            u,
            launches + if a == SupervisorAction::Launch {
                1nat
            } else {
                0nat
            },
            delays + if a == SupervisorAction::Delay(s.restart_delay_secs) {
                1nat
            } else {
                0nat
            },
        )
    }
}

proof fn lemma_run_from_start(s: Supervisor)
    requires
        s.phase == SupervisorPhase::Starting,
        s.restarts < s.max_restarts,
    ensures
        ({
            let (u, launches, delays) = run_always_exiting(
                s,
                (4 * (s.max_restarts - s.restarts) - 1) as nat,
            );
            &&& u.phase == SupervisorPhase::Terminated
            &&& u.restarts == s.max_restarts
            &&& launches == s.max_restarts - s.restarts
            &&& delays + 1 == launches
        }),
    decreases s.max_restarts - s.restarts,
{
    let k = (4 * (s.max_restarts - s.restarts) - 1) as nat;
    let s1 = step_spec(s, always_exiting_event(s)).0;
    let s2 = step_spec(s1, always_exiting_event(s1)).0;
    let s3 = step_spec(s2, always_exiting_event(s2)).0;
    assert(s3.restarts == s.restarts + 1);
    reveal_with_fuel(run_always_exiting, 4);
    if s.restarts + 1 < s.max_restarts {
        let s4 = step_spec(s3, always_exiting_event(s3)).0;
        lemma_run_from_start(s4);
        assert(run_always_exiting(s3, (k - 3) as nat) == {
            let (u, l, d) = run_always_exiting(s4, (k - 4) as nat);
            (u, l, d)
        });
    } else {
        assert(run_always_exiting(s3, (k - 3) as nat) == (s3, 0nat, 0nat));
    }
}

/// The actions asked for over `steps` events of a child that always exits at once, in order.
pub open spec fn actions_always_exiting(s: Supervisor, steps: nat) -> Seq<SupervisorAction>
    decreases steps,
{
    if steps == 0 {
        Seq::empty()
    } else {
        let (t, a) = step_spec(s, always_exiting_event(s));
        seq![a] + actions_always_exiting(t, (steps - 1) as nat)
    }
}

/// `launches` launches of a child that exits at once: each launch is followed by one check
/// interval; every launch but the last is then followed by the restart delay and the cancellation
/// check that come before the next launch; after the last one the session stops.
pub open spec fn relaunch_pattern(check_interval_secs: u64, restart_delay_secs: u64, launches: nat) -> Seq<
    SupervisorAction,
>
    decreases launches,
{
    if launches <= 1 {
        seq![
            SupervisorAction::Launch,
            SupervisorAction::Wait(check_interval_secs),
            SupervisorAction::Stop,
        ]
    } else {
        seq![
            SupervisorAction::Launch,
            SupervisorAction::Wait(check_interval_secs),
            SupervisorAction::Delay(restart_delay_secs),
            SupervisorAction::CheckCancel,
        ] + relaunch_pattern(check_interval_secs, restart_delay_secs, (launches - 1) as nat)
    }
}

proof fn lemma_actions_from_start(s: Supervisor)
    requires
        s.phase == SupervisorPhase::Starting,
        s.restarts < s.max_restarts,
    ensures
        actions_always_exiting(s, (4 * (s.max_restarts - s.restarts) - 1) as nat) == relaunch_pattern(
            s.check_interval_secs,
            s.restart_delay_secs,
            (s.max_restarts - s.restarts) as nat,
        ),
    decreases s.max_restarts - s.restarts,
{
    let k = (4 * (s.max_restarts - s.restarts) - 1) as nat;
    let s1 = step_spec(s, always_exiting_event(s)).0;
    let s2 = step_spec(s1, always_exiting_event(s1)).0;
    let s3 = step_spec(s2, always_exiting_event(s2)).0;
    reveal_with_fuel(actions_always_exiting, 4);
    if s.restarts + 1 < s.max_restarts {
        let s4 = step_spec(s3, always_exiting_event(s3)).0;
        lemma_actions_from_start(s4);
        assert(actions_always_exiting(s, k) =~= seq![
            SupervisorAction::Launch,
            SupervisorAction::Wait(s.check_interval_secs),
            SupervisorAction::Delay(s.restart_delay_secs),
            SupervisorAction::CheckCancel,
        ] + actions_always_exiting(s4, (k - 4) as nat));
    } else {
        assert(actions_always_exiting(s3, 0) == Seq::<SupervisorAction>::empty());
        assert(actions_always_exiting(s, k) =~= seq![
            SupervisorAction::Launch,
            SupervisorAction::Wait(s.check_interval_secs),
            SupervisorAction::Stop,
        ]);
    }
}

/// With a restart budget of `max_restarts` (at least one), a child that always exits at once is
/// launched `max_restarts` times in all; between one launch and the next come exactly one check
/// interval, one restart delay and one cancellation check, so launches are at least the restart
/// delay apart; after the last launch the session stops.
pub proof fn lemma_relaunch_spacing(check_interval_secs: u64, restart_delay_secs: u64, max_restarts: u32)
    requires
        max_restarts >= 1,
    ensures
        actions_always_exiting(
            start_spec(check_interval_secs, restart_delay_secs, max_restarts),
            (4 * max_restarts - 1) as nat,
        ) == relaunch_pattern(check_interval_secs, restart_delay_secs, max_restarts as nat),
{
    lemma_actions_from_start(start_spec(check_interval_secs, restart_delay_secs, max_restarts));
}

/// With a restart budget of `max_restarts` (at least one), a child that always exits at once is
/// launched exactly `max_restarts` times, with a restart delay before each relaunch, and then
/// the session is over.
pub proof fn lemma_restart_budget(check_interval_secs: u64, restart_delay_secs: u64, max_restarts: u32)
    requires
        max_restarts >= 1,
    ensures
        ({
            let (u, launches, delays) = run_always_exiting(
                start_spec(check_interval_secs, restart_delay_secs, max_restarts),
                (4 * max_restarts - 1) as nat,
            );
            &&& u.phase == SupervisorPhase::Terminated
            &&& launches == max_restarts
            &&& delays == max_restarts - 1
        }),
{
    lemma_run_from_start(start_spec(check_interval_secs, restart_delay_secs, max_restarts));
}

/// Once a session is over, no event restarts it.
pub proof fn lemma_terminated_stays(s: Supervisor, e: SupervisorEvent)
    requires
        s.phase == SupervisorPhase::Terminated,
    ensures
        step_spec(s, e) == (s, SupervisorAction::Stop),
{
}

/// A cancellation seen before a launch or at a check ends the session, killing a running child.
pub proof fn lemma_cancel_ends_session(s: Supervisor, exited: bool)
    ensures
        s.phase == SupervisorPhase::Starting ==> step_spec(s, SupervisorEvent::CancelChecked(true))
            == (Supervisor { phase: SupervisorPhase::Terminated, ..s }, SupervisorAction::Stop),
        s.phase == SupervisorPhase::Running ==> step_spec(
            s,
            SupervisorEvent::Ticked { cancelled: true, exited },
        ) == (Supervisor { phase: SupervisorPhase::Terminated, ..s }, SupervisorAction::KillChild),
{
}

} // verus!
