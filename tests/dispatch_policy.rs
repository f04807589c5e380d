use inference_core::dispatch::{initial_phase, next_step, DispatchAction, DispatchEvent, DispatchPhase};
use inference_core::execution::{ExecutionManager, ExecutionState};
use inference_core::hybrid::{HybridExecutor, OffloadError};
use inference_core::policy::{enforce_policy, Policy, PolicyError};

fn policy(net: bool, hybrid: bool, tel: bool) -> Policy {
    Policy { allow_networking: net, allow_hybrid_compute: hybrid, allow_telemetry: tel }
}

#[test]
fn policy_passes_hybrid_through() {
    assert_eq!(enforce_policy(policy(false, true, false)), Ok(policy(false, true, false)));
    assert_eq!(enforce_policy(policy(false, false, false)), Ok(policy(false, false, false)));
}

#[test]
fn policy_refuses_networking_and_telemetry() {
    assert_eq!(enforce_policy(policy(true, false, false)), Err(PolicyError::NetworkingDisabled));
    assert_eq!(enforce_policy(policy(true, true, true)), Err(PolicyError::NetworkingDisabled));
    assert_eq!(enforce_policy(policy(false, true, true)), Err(PolicyError::TelemetryDisabled));
    assert!(!PolicyError::TelemetryDisabled.message().is_empty());
}

#[test]
fn route_depends_on_policy_and_peers() {
    let with_peer = HybridExecutor::new();
    let without = HybridExecutor { peers: vec![] };
    assert_eq!(initial_phase(policy(false, true, false), &with_peer), DispatchPhase::Remote);
    assert_eq!(initial_phase(policy(false, false, false), &with_peer), DispatchPhase::Local);
    assert_eq!(initial_phase(policy(false, true, false), &without), DispatchPhase::Local);
}

fn finish(a: DispatchAction) -> (ExecutionState, Option<String>, Option<String>) {
    match a {
        DispatchAction::Finish { state, result, error } => (state, result, error),
        other => panic!("expected a final action, got {:?}", other),
    }
}

#[test]
fn remote_success_completes() {
    let (phase, action) = next_step(DispatchPhase::Remote, DispatchEvent::RemoteDone(Ok("remote".to_string())));
    assert_eq!(phase, DispatchPhase::Finished);
    assert_eq!(finish(action), (ExecutionState::Completed, Some("remote".to_string()), None));
}

#[test]
fn every_offload_failure_falls_back_to_local() {
    for e in [
        OffloadError::TransportFailure,
        OffloadError::Timeout,
        OffloadError::VerificationFailure,
        OffloadError::ProtocolError,
    ] {
        let (phase, action) = next_step(DispatchPhase::Remote, DispatchEvent::RemoteDone(Err(e)));
        assert_eq!(phase, DispatchPhase::Local);
        assert!(matches!(action, DispatchAction::RunLocal));
    }
}

#[test]
fn local_failure_fails_without_retry() {
    let (phase, action) = next_step(DispatchPhase::Local, DispatchEvent::LocalDone(Err("engine".to_string())));
    assert_eq!(phase, DispatchPhase::Finished);
    assert_eq!(finish(action), (ExecutionState::Failed, None, Some("engine".to_string())));
}

#[test]
fn cancellation_wins_and_later_events_are_ignored() {
    for phase in [DispatchPhase::Remote, DispatchPhase::Local] {
        let (p, action) = next_step(phase, DispatchEvent::CancelFired);
        assert_eq!(p, DispatchPhase::Finished);
        assert_eq!(finish(action), (ExecutionState::Cancelled, None, None));
    }
    let (p, action) = next_step(DispatchPhase::Finished, DispatchEvent::RemoteDone(Ok("late".to_string())));
    assert_eq!(p, DispatchPhase::Finished);
    assert!(matches!(action, DispatchAction::Ignore));
    let (p, action) = next_step(DispatchPhase::Local, DispatchEvent::RemoteDone(Ok("late".to_string())));
    assert_eq!(p, DispatchPhase::Local);
    assert!(matches!(action, DispatchAction::Ignore));
}

#[test]
fn unreachable_peer_falls_back_and_completes_locally() {
    let mut m = ExecutionManager::new();
    let mut h = HybridExecutor { peers: vec![] };
    h.add_peer(inference_core::hybrid::Peer { id: "p".to_string(), address: "127.0.0.1:1".to_string() });
    let p = policy(false, true, false);
    let id = m.start_execution("prompt".to_string(), p).unwrap();
    m.update_execution(&id, ExecutionState::Running, None, None).unwrap();
    let mut phase = initial_phase(p, &h);
    assert_eq!(phase, DispatchPhase::Remote);
    let (next, action) = next_step(phase, DispatchEvent::RemoteDone(Err(OffloadError::TransportFailure)));
    phase = next;
    assert!(matches!(action, DispatchAction::RunLocal));
    let (next, action) = next_step(phase, DispatchEvent::LocalDone(Ok("local answer".to_string())));
    assert_eq!(next, DispatchPhase::Finished);
    let (state, result, error) = finish(action);
    let published = m.update_execution(&id, state, result, error).unwrap();
    assert_eq!(published.state, "Completed");
    assert_eq!(published.result, Some("local answer".to_string()));
    assert_eq!(published.error, None);
    assert!(!m.has_active());
}

#[test]
fn cancelled_task_discards_late_local_result() {
    let mut m = ExecutionManager::new();
    let id = m.start_execution("prompt".to_string(), policy(false, false, false)).unwrap();
    m.update_execution(&id, ExecutionState::Running, None, None).unwrap();
    m.cancel_execution(&id).unwrap();
    let (_, action) = next_step(DispatchPhase::Local, DispatchEvent::LocalDone(Ok("late".to_string())));
    let (state, result, error) = finish(action);
    assert!(m.update_execution(&id, state, result, error).is_none());
    assert_eq!(m.get_execution(&id).unwrap().state, "Cancelled");
}
