use runx::js_engine::{EngineError, WorkerFailureCode};
use runx::worker_protocol::{
    engine_failure_response, ActiveInvocations, ProtocolPhase, ServerAction, WorkerProtocol, WorkerRequest,
    WorkerServerError,
};

fn protocol_failure(invocation_id: Option<&str>, message: &str) -> ServerAction {
    ServerAction::FailAndStop {
        invocation_id: invocation_id.map(|i| i.to_owned()),
        code: WorkerFailureCode::InvalidProtocol,
        message: message.to_owned(),
        discard_worker: true,
    }
}

fn invoke(version: u32, id: &str) -> Option<WorkerRequest> {
    Some(WorkerRequest::Invoke { protocol_version: version, invocation_id: id.to_owned() })
}

#[test]
fn handshake_then_invocations() {
    let mut worker = WorkerProtocol::new(1);
    assert_eq!(worker.on_frame(Some(WorkerRequest::Hello { protocol_version: 1 })), ServerAction::SendReady);
    assert_eq!(worker.phase, ProtocolPhase::Serving);
    assert_eq!(worker.on_frame(invoke(1, "js-1")), ServerAction::Evaluate { invocation_id: "js-1".to_owned() });
    assert_eq!(worker.on_frame(invoke(1, "js-2")), ServerAction::Evaluate { invocation_id: "js-2".to_owned() });
    assert_eq!(worker.on_frame(None), ServerAction::Stop);
    assert_eq!(worker.phase, ProtocolPhase::Closed);
}

#[test]
fn handshake_version_mismatch_is_refused() {
    let mut worker = WorkerProtocol::new(1);
    assert_eq!(
        worker.on_frame(Some(WorkerRequest::Hello { protocol_version: 2 })),
        protocol_failure(None, "worker protocol handshake mismatch")
    );
    assert_eq!(worker.on_frame(invoke(1, "js-1")), ServerAction::Stop);
}

#[test]
fn protocol_violations_after_the_handshake_retire_the_worker() {
    let mut worker = WorkerProtocol::new(1);
    worker.on_frame(Some(WorkerRequest::Hello { protocol_version: 1 }));
    assert_eq!(
        worker.on_frame(invoke(3, "js-9")),
        ServerAction::FailAndStop {
            invocation_id: Some("js-9".to_owned()),
            code: WorkerFailureCode::InvalidProtocol,
            message: "worker invocation protocol mismatch".to_owned(),
            discard_worker: true,
        }
    );
    let mut again = WorkerProtocol::new(1);
    again.on_frame(Some(WorkerRequest::Hello { protocol_version: 1 }));
    assert_eq!(
        again.on_frame(Some(WorkerRequest::Hello { protocol_version: 1 })),
        protocol_failure(None, "worker handshake may occur only once")
    );
    let mut early = WorkerProtocol::new(1);
    assert_eq!(
        early.on_frame(invoke(1, "js-1")),
        protocol_failure(None, "worker protocol handshake mismatch")
    );
}

#[test]
fn active_invocations_are_bounded_and_drain() {
    let mut active = ActiveInvocations::new();
    assert!(active.acquire(2));
    assert!(active.acquire(2));
    assert!(!active.acquire(2));
    assert!(!active.is_idle());
    active.release();
    active.release();
    active.release();
    assert!(active.is_idle());
    let failure = engine_failure_response(
        "js-1".to_owned(),
        &EngineError { code: WorkerFailureCode::ExecutionFailed, message: "boom".to_owned() },
    );
    assert_eq!(failure.code, WorkerFailureCode::ExecutionFailed);
    assert!(!failure.discard_worker);
}

#[test]
fn server_errors_say_what_stopped_the_worker() {
    assert_eq!(
        WorkerServerError::Limits("rlimit refused".to_owned()).message(),
        "worker limits could not be installed: rlimit refused"
    );
    assert_eq!(WorkerServerError::Protocol("frame too large".to_owned()).message(), "frame too large");
    assert_eq!(
        WorkerServerError::Thread("no memory".to_owned()).message(),
        "worker request thread could not be created: no memory"
    );
    assert_eq!(
        WorkerServerError::Coordination("poisoned".to_owned()).message(),
        "worker request coordination failed: poisoned"
    );
    assert_eq!(WorkerServerError::ResponseThreadPanicked.message(), "worker response thread panicked");
}
