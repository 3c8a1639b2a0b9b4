use vstd::prelude::*;
use crate::message::Message;

verus! {

/// A worker is either draining the queue or has observed its terminating
/// condition; there is no way back from `Terminated`.
#[derive(Clone, Copy, PartialEq, Eq, Structural)]
pub enum WorkerState {
    Running,
    Terminated,
}

/// What one worker iteration observes: a successfully decoded item, an idle
/// pop, a payload that would not decode, or a refused channel send.
pub enum WorkerEvent {
    Decoded(Message),
    QueueIdle,
    BadPayload,
    SendRefused,
}

/// What the worker does next: forward the decoded item to the aggregator, or
/// stop for good.
pub enum WorkerAction {
    Forward(Message),
    Stop,
}

/// The worker lifecycle: a running worker stays running only while items keep
/// decoding; idle expiry, a bad payload and a refused send all end it, and a
/// terminated worker never resumes.
pub open spec fn next_state(s: WorkerState, e: WorkerEvent) -> WorkerState {
    match (s, e) {
        (WorkerState::Running, WorkerEvent::Decoded(_)) => WorkerState::Running,
        _ => WorkerState::Terminated,
    }
}

/// A running worker forwards each decoded item; in every other situation the
/// action is to stop.
pub open spec fn step_action(s: WorkerState, e: WorkerEvent) -> WorkerAction {
    match (s, e) {
        (WorkerState::Running, WorkerEvent::Decoded(m)) => WorkerAction::Forward(m),
        _ => WorkerAction::Stop,
    }
}

/// One decision step of the worker loop: from the current state and the
/// observed event to the next state and the action to perform.
pub fn worker_step(s: WorkerState, e: WorkerEvent) -> (r: (WorkerState, WorkerAction))
    ensures
        r.0 == next_state(s, e),
        r.1 == step_action(s, e),
{
    match (s, e) {
        (WorkerState::Running, WorkerEvent::Decoded(m)) => (
            WorkerState::Running,
            WorkerAction::Forward(m),
        ),
        _ => (WorkerState::Terminated, WorkerAction::Stop),
    }
}

/// A running worker terminates on the first idle expiry, decode failure or
/// refused send, and termination is one-way: no event resumes a terminated
/// worker.
pub proof fn lemma_worker_terminates(e: WorkerEvent)
    ensures
        !(e matches WorkerEvent::Decoded(_)) ==> next_state(WorkerState::Running, e)
            == WorkerState::Terminated,
        forall|e2: WorkerEvent|
            next_state(WorkerState::Terminated, e2) == WorkerState::Terminated,
{
}

} // verus!
