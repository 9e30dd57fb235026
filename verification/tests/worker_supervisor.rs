use runx::worker_supervisor::{
    check_worker_sandbox, handshake_accepted, InvocationEnd, JavaScriptSessionStats,
    JavaScriptWorkerSupervisor,
};

#[test]
fn invocations_are_numbered_from_one() {
    let mut supervisor = JavaScriptWorkerSupervisor::new(4);
    assert_eq!(supervisor.next_invocation_id(), "js-1");
    assert_eq!(supervisor.next_invocation_id(), "js-2");
    assert_eq!(supervisor.max_concurrency(), 4);
}

#[test]
fn a_session_is_started_once_and_kept_while_it_answers() {
    let mut supervisor = JavaScriptWorkerSupervisor::new(2);
    assert_eq!(supervisor.live_session(), None);
    supervisor.session_started(7);
    assert_eq!(supervisor.live_session(), Some(7));
    assert!(!supervisor.finish_invocation(7, 2, InvocationEnd::Answered));
    assert_eq!(supervisor.live_session(), Some(7));
    assert_eq!(supervisor.spawned_process_count(), 1);
    assert_eq!(
        supervisor.session_stats(),
        JavaScriptSessionStats { spawned_process_count: 1, peak_in_flight: 2 }
    );
}

#[test]
fn failed_or_retired_sessions_are_replaced() {
    let mut supervisor = JavaScriptWorkerSupervisor::new(2);
    supervisor.session_started(1);
    assert!(supervisor.finish_invocation(1, 1, InvocationEnd::DiscardRequested));
    assert_eq!(supervisor.live_session(), None);
    supervisor.session_started(2);
    assert!(supervisor.finish_invocation(2, 3, InvocationEnd::Failed));
    assert_eq!(supervisor.live_session(), None);
    assert_eq!(supervisor.spawned_process_count(), 2);
    assert_eq!(supervisor.session_stats().peak_in_flight, 3);
}

#[test]
fn a_stale_session_is_not_terminated_twice() {
    let mut supervisor = JavaScriptWorkerSupervisor::new(1);
    supervisor.session_started(5);
    assert!(!supervisor.discard_session(4));
    assert_eq!(supervisor.live_session(), Some(5));
    assert!(supervisor.discard_session(5));
    assert!(!supervisor.finish_invocation(5, 0, InvocationEnd::Failed));
}

#[test]
fn a_worker_sandbox_carries_no_environment_or_cleanup_paths() {
    assert_eq!(check_worker_sandbox(0, 0), Ok(()));
    let refusal = Err(
        "deterministic JavaScript worker sandbox must not carry environment or host cleanup paths"
            .to_owned(),
    );
    assert_eq!(check_worker_sandbox(1, 0), refusal);
    assert_eq!(check_worker_sandbox(0, 2), refusal);
}

#[test]
fn only_a_ready_answer_in_the_same_protocol_completes_the_handshake() {
    assert!(handshake_accepted(Some(1), 1));
    assert!(!handshake_accepted(Some(2), 1));
    assert!(!handshake_accepted(None, 1));
}
