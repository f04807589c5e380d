use vstd::prelude::*;
use crate::execution::ExecutionState;
use crate::hybrid::{HybridExecutor, OffloadError};
use crate::policy::Policy;

verus! {

/// Where a task's work is currently being done.
#[derive(Clone, Copy, Debug, PartialEq, Eq, Structural)]
pub enum DispatchPhase {
    /// Waiting for the peer that the work was offloaded to.
    Remote,
    /// Waiting for the local engine.
    Local,
    /// The outcome has been decided; later events are discarded.
    Finished,
}

/// Something that happened while a task ran.
#[derive(Debug)]
pub enum DispatchEvent {
    /// The offload attempt ended.
    RemoteDone(Result<String, OffloadError>),
    /// The local engine ended.
    LocalDone(Result<String, String>),
    /// The task's cancellation signal fired.
    CancelFired,
}

/// What the runner of a task does next.
#[derive(Clone, Debug)]
pub enum DispatchAction {
    /// Run the same prompt on the local engine.
    RunLocal,
    /// Record this outcome for the task; nothing more is run for it.
    Finish { state: ExecutionState, result: Option<String>, error: Option<String> },
    /// Discard the event.
    Ignore,
}

/// The phase a task starts in: offloaded when the policy allows hybrid
/// compute and a peer is registered, local otherwise.
pub open spec fn initial_phase_of(allow_hybrid: bool, peer_count: nat) -> DispatchPhase {
    if allow_hybrid && peer_count > 0 {
        DispatchPhase::Remote
    } else {
        DispatchPhase::Local
    }
}

/// The phase and action that follow `event` in `phase`.
///
/// A remote result completes the task; a remote failure falls back to the
/// local engine once; the local engine's result completes or fails the task;
/// cancellation ends a task that is still running. Events that do not belong
/// to the phase, and every event after the outcome, are ignored.
pub open spec fn step(phase: DispatchPhase, event: DispatchEvent) -> (DispatchPhase, DispatchAction) {
    match (phase, event) {
        (DispatchPhase::Finished, _) => (DispatchPhase::Finished, DispatchAction::Ignore),
        (_, DispatchEvent::CancelFired) => (
            DispatchPhase::Finished,
            DispatchAction::Finish { state: ExecutionState::Cancelled, result: None, error: None },
        ),
        (DispatchPhase::Remote, DispatchEvent::RemoteDone(Ok(out))) => (
            DispatchPhase::Finished,
            DispatchAction::Finish { state: ExecutionState::Completed, result: Some(out), error: None },
        ),
        (DispatchPhase::Remote, DispatchEvent::RemoteDone(Err(_))) => (
            DispatchPhase::Local,
            DispatchAction::RunLocal,
        ),
        (DispatchPhase::Local, DispatchEvent::LocalDone(Ok(out))) => (
            DispatchPhase::Finished,
            DispatchAction::Finish { state: ExecutionState::Completed, result: Some(out), error: None },
        ),
        (DispatchPhase::Local, DispatchEvent::LocalDone(Err(e))) => (
            DispatchPhase::Finished,
            DispatchAction::Finish { state: ExecutionState::Failed, result: None, error: Some(e) },
        ),
        (p, _) => (p, DispatchAction::Ignore),
    }
}

/// Decides where a task with policy `policy` starts.
pub fn initial_phase(policy: Policy, executor: &HybridExecutor) -> (r: DispatchPhase)
    ensures
        r == initial_phase_of(policy.allow_hybrid_compute, executor.peers@.len()),
{
    if executor.should_use_hybrid(policy.allow_hybrid_compute) {
        DispatchPhase::Remote
    } else {
        DispatchPhase::Local
    }
}

/// Decides what follows `event` in `phase`.
pub fn next_step(phase: DispatchPhase, event: DispatchEvent) -> (r: (DispatchPhase, DispatchAction))
    ensures
        r == step(phase, event),
{
    match phase {
        DispatchPhase::Finished => (DispatchPhase::Finished, DispatchAction::Ignore),
        _ => match event {
            DispatchEvent::CancelFired => (
                DispatchPhase::Finished,
                DispatchAction::Finish { state: ExecutionState::Cancelled, result: None, error: None },
            ),
            DispatchEvent::RemoteDone(outcome) => {
                if phase == DispatchPhase::Remote {
                    match outcome {
                        Ok(out) => (
                            DispatchPhase::Finished,
                            DispatchAction::Finish {
                                state: ExecutionState::Completed,
                                result: Some(out),
                                error: None,
                            },
                        ),
                        Err(_) => (DispatchPhase::Local, DispatchAction::RunLocal),
                    }
                } else {
                    (phase, DispatchAction::Ignore)
                }
            },
            DispatchEvent::LocalDone(outcome) => {
                if phase == DispatchPhase::Local {
                    match outcome {
                        Ok(out) => (
                            DispatchPhase::Finished,
                            DispatchAction::Finish {
                                state: ExecutionState::Completed,
                                result: Some(out),
                                error: None,
                            },
                        ),
                        Err(e) => (
                            DispatchPhase::Finished,
                            DispatchAction::Finish {
                                state: ExecutionState::Failed,
                                result: None,
                                error: Some(e),
                            },
                        ),
                    }
                } else {
                    (phase, DispatchAction::Ignore)
                }
            },
        },
    }
}

/// Fallback: whatever way the offload fails, the same prompt then runs
/// locally, and a local success completes the task with the local output.
pub proof fn lemma_failed_offload_falls_back(e: OffloadError, out: String)
    ensures
        step(DispatchPhase::Remote, DispatchEvent::RemoteDone(Err(e))) == (
            DispatchPhase::Local,
            DispatchAction::RunLocal,
        ),
        step(DispatchPhase::Local, DispatchEvent::LocalDone(Ok(out))) == (
            DispatchPhase::Finished,
            DispatchAction::Finish { state: ExecutionState::Completed, result: Some(out), error: None },
        ),
{
}

/// One attempt each: a failure of the local engine ends the task as Failed
/// with the engine's error, and once the outcome is decided every later
/// event, a late remote answer or a cancellation included, is discarded.
pub proof fn lemma_no_retry(err: String, later: DispatchEvent)
    ensures
        step(DispatchPhase::Local, DispatchEvent::LocalDone(Err(err))) == (
            DispatchPhase::Finished,
            DispatchAction::Finish { state: ExecutionState::Failed, result: None, error: Some(err) },
        ),
        step(DispatchPhase::Finished, later) == (DispatchPhase::Finished, DispatchAction::Ignore),
{
}

/// Cancellation wins over a task that is still running, in either phase.
pub proof fn lemma_cancel_ends_running(phase: DispatchPhase)
    requires
        phase != DispatchPhase::Finished,
    ensures
        step(phase, DispatchEvent::CancelFired) == (
            DispatchPhase::Finished,
            DispatchAction::Finish { state: ExecutionState::Cancelled, result: None, error: None },
        ),
{
}

} // verus!
