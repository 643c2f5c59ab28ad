use proc_control::{
    auto_respawn, children_of, collect_descendants_with_depth, limit_requests, plan_kill,
    priority_class, stop_auto_respawn, Escalation, KillAction, KillOutcome, KillPlan, KillRecord, KillReport,
    KillTarget, LimitRequest, LimitResource, LimitsError, PriorityClass, ProcessLimits,
    ProcessSnapshot, RespawnError, RespawnRegistry, Supervisor, SupervisorAction, SupervisorEvent,
    SupervisorPhase, POLL_INTERVAL_MS, SETTLE_MS,
};

fn snapshot(rows: &[(u32, Option<u32>)]) -> ProcessSnapshot {
    let mut s = ProcessSnapshot::new();
    for (pid, parent) in rows {
        s.insert(*pid, *parent);
    }
    s
}

fn sample_tree() -> ProcessSnapshot {
    snapshot(&[
        (1, None),
        (100, Some(1)),
        (101, Some(100)),
        (102, Some(100)),
        (103, Some(102)),
        (200, Some(1)),
        (201, Some(200)),
    ])
}

fn sorted(mut v: Vec<(u32, usize)>) -> Vec<(u32, usize)> {
    v.sort();
    v
}

/// Drives one termination to its end, the process being alive at each check as `alive` says.
fn run_escalation(pid: u32, depth: usize, timeout: u64, alive: &mut dyn FnMut(usize) -> bool) -> (KillOutcome, Vec<KillAction>) {
    let (mut e, mut action) = Escalation::begin(pid, depth, timeout);
    let mut actions = vec![action];
    let mut checks: usize = 0;
    loop {
        match action {
            KillAction::Done(o) => return (o, actions),
            _ => {
                let a = alive(checks);
                checks += 1;
                action = e.observe(a);
                actions.push(action);
            }
        }
    }
}

#[test]
fn insert_replaces_existing_row() {
    let mut s = ProcessSnapshot::new();
    s.insert(5, Some(1));
    s.insert(6, Some(5));
    s.insert(5, Some(2));
    assert_eq!(s.len(), 2);
    assert_eq!(s.entry(0).parent, Some(2));
    assert_eq!(s.entry(1).pid, 6);
}

#[test]
fn collect_tree_with_depths() {
    let s = sample_tree();
    let found = collect_descendants_with_depth(100, &s);
    assert_eq!(sorted(found.clone()), vec![(101, 1), (102, 1), (103, 2)]);
    // shallowest first
    assert_eq!(found[2], (103, 2));
}

#[test]
fn collect_from_top_covers_everything() {
    let s = sample_tree();
    let found = collect_descendants_with_depth(1, &s);
    assert_eq!(
        sorted(found),
        vec![(100, 1), (101, 2), (102, 2), (103, 3), (200, 1), (201, 2)]
    );
}

#[test]
fn collect_absent_root_is_empty() {
    let s = sample_tree();
    assert!(collect_descendants_with_depth(999, &s).is_empty());
}

#[test]
fn collect_absent_root_with_orphans_is_empty() {
    // 100 has exited; its children still name it as their parent
    let s = snapshot(&[(5, Some(100)), (6, Some(5))]);
    assert!(collect_descendants_with_depth(100, &s).is_empty());
    let plan = plan_kill(100, &s, true);
    assert!(plan.descendants.is_empty());
    assert_eq!(plan.root, KillTarget { pid: 100, depth: 0 });
}

#[test]
fn collect_leaf_is_empty() {
    let s = sample_tree();
    assert!(collect_descendants_with_depth(103, &s).is_empty());
}

#[test]
fn collect_self_parent_root_is_not_listed() {
    let s = snapshot(&[(5, Some(5)), (6, Some(5)), (7, Some(6))]);
    assert_eq!(sorted(collect_descendants_with_depth(5, &s)), vec![(6, 1), (7, 2)]);
}

#[test]
fn collect_cycle_through_root_terminates() {
    let s = snapshot(&[(7, Some(8)), (8, Some(7)), (9, Some(8))]);
    assert_eq!(sorted(collect_descendants_with_depth(7, &s)), vec![(8, 1), (9, 2)]);
}

#[test]
fn children_listed_by_parent() {
    let s = sample_tree();
    let mut c = children_of(&s, 100);
    c.sort();
    assert_eq!(c, vec![101, 102]);
    assert!(children_of(&s, 103).is_empty());
    let looped = snapshot(&[(4, Some(4)), (3, Some(4))]);
    assert_eq!(children_of(&looped, 4), vec![4, 3]);
}

#[test]
fn plan_without_children_targets_root_only() {
    let s = sample_tree();
    let plan = plan_kill(100, &s, false);
    assert!(plan.descendants.is_empty());
    assert_eq!(plan.root, KillTarget { pid: 100, depth: 0 });
}

#[test]
fn plan_with_children_is_deepest_first() {
    let s = sample_tree();
    let plan = plan_kill(100, &s, true);
    assert_eq!(plan.descendants.len(), 3);
    assert_eq!(plan.descendants[0], KillTarget { pid: 103, depth: 2 });
    let mut rest: Vec<u32> = plan.descendants[1..].iter().map(|t| t.pid).collect();
    rest.sort();
    assert_eq!(rest, vec![101, 102]);
    assert_eq!(plan.root, KillTarget { pid: 100, depth: 0 });
}

#[test]
fn absent_process_stops_gracefully_at_first_check() {
    let (outcome, actions) = run_escalation(42, 0, 1, &mut |_| false);
    assert_eq!(outcome, KillOutcome::KilledGracefully);
    assert_eq!(
        actions,
        vec![KillAction::Poll(POLL_INTERVAL_MS), KillAction::Done(KillOutcome::KilledGracefully)]
    );
}

#[test]
fn zero_timeout_goes_straight_to_force() {
    let (_, first) = Escalation::begin(42, 0, 0);
    assert_eq!(first, KillAction::Force(SETTLE_MS));
    let (outcome, actions) = run_escalation(42, 0, 0, &mut |_| false);
    assert_eq!(outcome, KillOutcome::KilledForcefully);
    assert_eq!(actions.len(), 2);
}

#[test]
fn stubborn_process_is_polled_for_the_whole_timeout_then_forced() {
    // one second: five polls of 200 ms, then the forceful kill
    let (outcome, actions) = run_escalation(42, 1, 1, &mut |n| n < 5);
    assert_eq!(outcome, KillOutcome::KilledForcefully);
    let polls = actions.iter().filter(|a| **a == KillAction::Poll(POLL_INTERVAL_MS)).count();
    assert_eq!(polls, 5);
    assert_eq!(actions[5], KillAction::Force(SETTLE_MS));
}

#[test]
fn process_surviving_force_is_failed() {
    let (outcome, _) = run_escalation(42, 0, 2, &mut |_| true);
    assert_eq!(outcome, KillOutcome::Failed);
}

#[test]
fn process_leaving_during_grace_period_is_graceful() {
    let (outcome, actions) = run_escalation(42, 0, 3, &mut |n| n < 2);
    assert_eq!(outcome, KillOutcome::KilledGracefully);
    assert_eq!(actions.len(), 4);
}

#[test]
fn escalation_tracks_elapsed_time() {
    let (mut e, _) = Escalation::begin(7, 0, 10);
    e.observe(true);
    e.observe(true);
    assert_eq!(e.elapsed_ms, 400);
    assert_eq!(e.outcome(), None);
    e.observe(false);
    assert_eq!(e.outcome(), Some(KillOutcome::KilledGracefully));
}

fn two_child_plan() -> KillPlan {
    KillPlan {
        descendants: vec![KillTarget { pid: 101, depth: 1 }, KillTarget { pid: 102, depth: 1 }],
        root: KillTarget { pid: 100, depth: 0 },
    }
}

#[test]
fn report_refuses_root_before_descendants() {
    let plan = two_child_plan();
    let mut report = KillReport::new(&plan);
    let root = KillRecord { target: plan.root, outcome: KillOutcome::KilledGracefully };
    let first = KillRecord { target: plan.descendants[0], outcome: KillOutcome::KilledGracefully };
    let second = KillRecord { target: plan.descendants[1], outcome: KillOutcome::Failed };
    assert!(!report.record_root(root));
    assert!(report.record_descendant(first));
    assert!(!report.record_root(root));
    assert!(!report.record_descendant(first));
    assert!(report.record_descendant(second));
    assert!(!report.is_complete());
    assert!(report.record_root(root));
    assert!(report.is_complete());
    assert!(!report.record_root(root));
    assert_eq!(report.records().len(), 3);
    assert_eq!(report.records()[2], root);
}

#[test]
fn report_refuses_targets_outside_the_plan() {
    let plan = two_child_plan();
    let mut report = KillReport::new(&plan);
    let stranger = KillRecord { target: KillTarget { pid: 555, depth: 1 }, outcome: KillOutcome::Failed };
    let wrong_depth = KillRecord { target: KillTarget { pid: 101, depth: 2 }, outcome: KillOutcome::Failed };
    let root_as_child = KillRecord { target: plan.root, outcome: KillOutcome::Failed };
    assert!(!report.record_descendant(stranger));
    assert!(!report.record_descendant(wrong_depth));
    assert!(!report.record_descendant(root_as_child));
    assert!(report.records().is_empty());
    let empty = KillPlan { descendants: vec![], root: KillTarget { pid: 7, depth: 0 } };
    let mut solo = KillReport::new(&empty);
    assert!(!solo.record_root(KillRecord { target: KillTarget { pid: 8, depth: 0 }, outcome: KillOutcome::Failed }));
    assert!(solo.record_root(KillRecord { target: empty.root, outcome: KillOutcome::Failed }));
}

#[test]
fn tree_kill_scenario_reports_children_then_root() {
    let s = snapshot(&[(100, None), (101, Some(100)), (102, Some(100)), (103, Some(102))]);
    let plan = plan_kill(100, &s, true);
    let mut report = KillReport::new(&plan);
    for t in &plan.descendants {
        let (outcome, _) = run_escalation(t.pid, t.depth, 1, &mut |_| false);
        assert!(report.record_descendant(KillRecord { target: *t, outcome }));
    }
    let (outcome, _) = run_escalation(100, 0, 1, &mut |_| false);
    assert!(report.record_root(KillRecord { target: plan.root, outcome }));
    let records = report.records();
    assert_eq!(records.len(), 4);
    let mut children: Vec<u32> = records[..3].iter().map(|r| r.target.pid).collect();
    children.sort();
    assert_eq!(children, vec![101, 102, 103]);
    assert!(records[..3].iter().all(|r| r.outcome == KillOutcome::KilledGracefully));
    assert_eq!(records[3].target.pid, 100);
    assert!(matches!(records[3].outcome, KillOutcome::KilledGracefully | KillOutcome::KilledForcefully));
}

/// Runs a session whose child always exits at once; returns the launches and delays asked for.
fn run_always_exiting(max_restarts: u32) -> (usize, usize, Supervisor) {
    let (mut sup, mut action) = Supervisor::start(1, 1, max_restarts);
    let mut launches: usize = 0;
    let mut delays: usize = 0;
    for _ in 0..1000 {
        let event = match action {
            SupervisorAction::CheckCancel => SupervisorEvent::CancelChecked(false),
            SupervisorAction::Launch => {
                launches += 1;
                SupervisorEvent::Launched(true)
            }
            SupervisorAction::Wait(_) => SupervisorEvent::Ticked { cancelled: false, exited: true },
            SupervisorAction::Delay(secs) => {
                assert_eq!(secs, 1);
                delays += 1;
                SupervisorEvent::Slept
            }
            SupervisorAction::KillChild | SupervisorAction::Stop => break,
        };
        action = sup.step(event);
    }
    (launches, delays, sup)
}

#[test]
fn respawn_three_launches_then_ends() {
    let (launches, delays, sup) = run_always_exiting(3);
    assert_eq!(launches, 3);
    assert_eq!(delays, 2);
    assert_eq!(sup.phase, SupervisorPhase::Terminated);
    assert!(sup.is_terminated());
    assert_eq!(sup.restarts, 3);
}

#[test]
fn respawn_relaunches_spaced_by_delay() {
    let (mut sup, mut action) = Supervisor::start(2, 5, 3);
    let mut actions = vec![action];
    while action != SupervisorAction::Stop {
        let event = match action {
            SupervisorAction::CheckCancel => SupervisorEvent::CancelChecked(false),
            SupervisorAction::Launch => SupervisorEvent::Launched(true),
            SupervisorAction::Wait(_) => SupervisorEvent::Ticked { cancelled: false, exited: true },
            _ => SupervisorEvent::Slept,
        };
        action = sup.step(event);
        actions.push(action);
    }
    let cycle = vec![
        SupervisorAction::Launch,
        SupervisorAction::Wait(2),
        SupervisorAction::Delay(5),
        SupervisorAction::CheckCancel,
    ];
    let mut expected = vec![SupervisorAction::CheckCancel];
    expected.extend(cycle.iter().copied());
    expected.extend(cycle.iter().copied());
    expected.extend([SupervisorAction::Launch, SupervisorAction::Wait(2), SupervisorAction::Stop]);
    assert_eq!(actions, expected);
}

#[test]
fn respawn_budget_of_one_launches_once() {
    let (launches, delays, _) = run_always_exiting(1);
    assert_eq!((launches, delays), (1, 0));
}

#[test]
fn respawn_budget_of_zero_still_launches_once() {
    let (launches, _, _) = run_always_exiting(0);
    assert_eq!(launches, 1);
}

#[test]
fn respawn_cancel_before_launch_stops() {
    let (mut sup, _) = Supervisor::start(2, 3, 5);
    assert_eq!(sup.step(SupervisorEvent::CancelChecked(true)), SupervisorAction::Stop);
    assert!(sup.is_terminated());
    assert_eq!(sup.step(SupervisorEvent::Slept), SupervisorAction::Stop);
}

#[test]
fn respawn_cancel_while_running_kills_child() {
    let (mut sup, _) = Supervisor::start(2, 3, 5);
    assert_eq!(sup.step(SupervisorEvent::CancelChecked(false)), SupervisorAction::Launch);
    assert_eq!(sup.step(SupervisorEvent::Launched(true)), SupervisorAction::Wait(2));
    assert_eq!(
        sup.step(SupervisorEvent::Ticked { cancelled: false, exited: false }),
        SupervisorAction::Wait(2)
    );
    assert_eq!(
        sup.step(SupervisorEvent::Ticked { cancelled: true, exited: false }),
        SupervisorAction::KillChild
    );
    assert!(sup.is_terminated());
}

#[test]
fn respawn_launch_failure_ends_session() {
    let (mut sup, _) = Supervisor::start(2, 3, 5);
    sup.step(SupervisorEvent::CancelChecked(false));
    assert_eq!(sup.step(SupervisorEvent::Launched(false)), SupervisorAction::Stop);
    assert!(sup.is_terminated());
}

#[test]
fn respawn_unexpected_event_repeats_pending_action() {
    let (mut sup, _) = Supervisor::start(2, 3, 5);
    assert_eq!(sup.step(SupervisorEvent::Slept), SupervisorAction::CheckCancel);
    assert_eq!(sup.phase, SupervisorPhase::Starting);
    assert_eq!(sup.pending(), SupervisorAction::CheckCancel);
}

#[test]
fn stop_unregistered_is_not_found() {
    let mut reg = RespawnRegistry::new();
    assert_eq!(stop_auto_respawn(&mut reg, 77), Err(RespawnError::NotFound(77)));
}

#[test]
fn stop_registered_then_again_is_not_found() {
    let mut reg = RespawnRegistry::new();
    let (rx, sup, first) = auto_respawn(&mut reg, 77, 1, 1, 3);
    assert_eq!(first, SupervisorAction::CheckCancel);
    assert_eq!(sup.max_restarts, 3);
    assert!(reg.contains(77));
    assert!(rx.try_recv().is_err());
    assert_eq!(stop_auto_respawn(&mut reg, 77), Ok(()));
    assert!(!reg.contains(77));
    // the session sees the cancellation
    assert!(rx.try_recv().is_ok());
    assert_eq!(stop_auto_respawn(&mut reg, 77), Err(RespawnError::NotFound(77)));
}

#[test]
fn stop_leaves_other_sessions() {
    let mut reg = RespawnRegistry::new();
    let (_rx1, _, _) = auto_respawn(&mut reg, 1, 1, 1, 1);
    let (_rx2, _, _) = auto_respawn(&mut reg, 2, 1, 1, 1);
    assert_eq!(stop_auto_respawn(&mut reg, 1), Ok(()));
    assert!(reg.contains(2));
}

#[test]
fn limits_in_bytes_and_order() {
    let limits = ProcessLimits { pid: 9, max_memory_mb: Some(512), max_open_files: Some(64) };
    let r = limit_requests(&limits).unwrap();
    assert_eq!(
        r,
        vec![
            LimitRequest { resource: LimitResource::AddressSpace, value: 536870912 },
            LimitRequest { resource: LimitResource::OpenFiles, value: 64 },
        ]
    );
    let none = ProcessLimits { pid: 9, max_memory_mb: None, max_open_files: None };
    assert!(limit_requests(&none).unwrap().is_empty());
}

#[test]
fn limits_memory_overflow_is_refused() {
    let limits = ProcessLimits { pid: 9, max_memory_mb: Some(u64::MAX / 1000), max_open_files: Some(64) };
    assert_eq!(limit_requests(&limits), Err(LimitsError::MemoryTooLarge(u64::MAX / 1000)));
    let edge = ProcessLimits { pid: 9, max_memory_mb: Some(17592186044415), max_open_files: None };
    assert_eq!(limit_requests(&edge).unwrap()[0].value, 17592186044415 * 1048576);
}

#[test]
fn priority_classes_by_threshold() {
    assert_eq!(priority_class(-20), PriorityClass::Realtime);
    assert_eq!(priority_class(-15), PriorityClass::Realtime);
    assert_eq!(priority_class(-14), PriorityClass::High);
    assert_eq!(priority_class(-10), PriorityClass::High);
    assert_eq!(priority_class(-5), PriorityClass::AboveNormal);
    assert_eq!(priority_class(0), PriorityClass::Normal);
    assert_eq!(priority_class(5), PriorityClass::BelowNormal);
    assert_eq!(priority_class(6), PriorityClass::Idle);
    assert_eq!(priority_class(19), PriorityClass::Idle);
}
