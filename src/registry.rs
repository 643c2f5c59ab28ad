use vstd::prelude::*;
use std::collections::HashMap;
use crossbeam_channel::{Receiver, Sender};
use crate::respawn::{start_spec, Supervisor, SupervisorAction};

verus! {

#[verifier::external_type_specification]
#[verifier::external_body]
#[verifier::reject_recursive_types(T)]
pub struct ExSender<T>(crossbeam_channel::Sender<T>);

#[verifier::external_type_specification]
#[verifier::external_body]
#[verifier::reject_recursive_types(T)]
pub struct ExReceiver<T>(crossbeam_channel::Receiver<T>);

/// Relies on crossbeam_channel::unbounded: a new channel, its sending and receiving halves
/// connected to each other. Nothing about the values is needed here.
pub assume_specification<T>[ crossbeam_channel::unbounded::<T> ]() -> (crossbeam_channel::Sender<
    T,
>, crossbeam_channel::Receiver<T>);

/// Relies on crossbeam_channel::Sender::send: queues one cancellation message for the session's
/// receiver. Its error (the receiver is gone, so the session already ended) needs no handling.
#[verifier::external_body]
fn send_cancel(tx: &Sender<()>) {
    let _ = tx.send(());
}

/// Why a session could not be stopped.
#[derive(Clone, Copy, Debug, PartialEq, Eq)]
pub enum RespawnError {
    /// No session is registered under this process id.
    NotFound(u32),
}

/// The cancellation handles of the running respawn sessions, keyed by the process id each
/// session was registered under. The key names the session; it is not updated when the child
/// is relaunched under a new process id. A session that ends on its own keeps its entry until
/// it is stopped.
pub struct RespawnRegistry {
    controls: HashMap<u32, Sender<()>>,
}

impl View for RespawnRegistry {
    type V = Set<u32>;

    closed spec fn view(&self) -> Set<u32> {
        self.controls@.dom()
    }
}

/// Whether stopping `pid` in a registry holding `keys` succeeds.
pub open spec fn stop_result(keys: Set<u32>, pid: u32) -> Result<(), RespawnError> {
    if keys.contains(pid) {
        Ok(())
    } else {
        Err(RespawnError::NotFound(pid))
    }
}

impl RespawnRegistry {
    /// A registry with no session.
    pub fn new() -> (r: Self)
        ensures
            r@ == Set::<u32>::empty(),
    {
        let controls: HashMap<u32, Sender<()>> = HashMap::new();
        proof {
            assert(controls@.dom() =~= Set::<u32>::empty());
        }
        RespawnRegistry { controls }
    }

    /// Whether a session is registered under `pid`.
    pub fn contains(&self, pid: u32) -> (r: bool)
        ensures
            r == self@.contains(pid),
    {
        self.controls.contains_key(&pid)
    }
}

/// Registers a respawn session under `pid` and returns the receiver on which its cancellation
/// arrives, with the session in its first state and its first action. A session registered
/// earlier under `pid` loses its cancellation handle.
pub fn auto_respawn(
    registry: &mut RespawnRegistry,
    pid: u32,
    check_interval_secs: u64,
    restart_delay_secs: u64,
    max_restarts: u32,
) -> (r: (Receiver<()>, Supervisor, SupervisorAction))
    ensures
        final(registry)@ == old(registry)@.insert(pid),
        r.1 == start_spec(check_interval_secs, restart_delay_secs, max_restarts),
        r.2 == SupervisorAction::CheckCancel,
{
    let (tx, rx) = crossbeam_channel::unbounded::<()>();
    registry.controls.insert(pid, tx);
    let (sup, first) = Supervisor::start(check_interval_secs, restart_delay_secs, max_restarts);
    (rx, sup, first)
}

/// Stops the session registered under `pid`: removes its entry and signals its cancellation.
/// With no such session, reports `NotFound` and changes nothing.
pub fn stop_auto_respawn(registry: &mut RespawnRegistry, pid: u32) -> (r: Result<(), RespawnError>)
    ensures
        r == stop_result(old(registry)@, pid),
        final(registry)@ == old(registry)@.remove(pid),
{
    match registry.controls.remove(&pid) {
        Some(tx) => {
            send_cancel(&tx);
            Ok(())
        },
        None => {
            proof {
                assert(registry.controls@.dom() =~= old(registry).controls@.dom().remove(pid));
            }
            Err(RespawnError::NotFound(pid))
        },
    }
}

/// Stopping a session succeeds exactly when one is registered, and afterwards none is: a second
/// stop of the same id reports `NotFound`.
pub proof fn lemma_stop_twice(keys: Set<u32>, pid: u32)
    ensures
        stop_result(keys, pid) is Ok <==> keys.contains(pid),
        stop_result(keys.remove(pid), pid) == Err::<(), RespawnError>(RespawnError::NotFound(pid)),
{
}

} // verus!
