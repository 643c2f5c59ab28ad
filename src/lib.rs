//! Process-lifecycle control: the descendant tree of a process, the escalating termination of
//! a process tree, and the respawn supervisor with its registry of cancellation handles.
//!
//! The library decides; the caller acts. Each termination and each respawn session is a state
//! machine that returns the next action (sleep, check, signal, launch) and takes back what the
//! caller observed.
pub mod coordinator;
pub mod escalation;
pub mod limits;
pub mod registry;
pub mod respawn;
pub mod tree;

pub use coordinator::{plan_kill, KillPlan, KillRecord, KillReport, KillTarget};
pub use escalation::{Escalation, KillAction, KillOutcome, KillPhase, POLL_INTERVAL_MS, SETTLE_MS};
pub use limits::{
    limit_requests, priority_class, LimitRequest, LimitResource, LimitsError, PriorityClass,
    ProcessLimits,
};
pub use registry::{auto_respawn, stop_auto_respawn, RespawnError, RespawnRegistry};
pub use respawn::{Supervisor, SupervisorAction, SupervisorEvent, SupervisorPhase};
pub use tree::{children_of, collect_descendants_with_depth, ProcEntry, ProcessSnapshot};
