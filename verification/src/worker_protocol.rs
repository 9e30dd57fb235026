//! The deterministic JavaScript worker's side of its protocol: one
//! versioned handshake, then invocations of the same protocol version, each
//! run on its own while fewer than the maximum are active. Reading frames,
//! running invocations and writing responses are the caller's; this decides
//! what each incoming frame leads to.
use vstd::prelude::*;

use crate::js_engine::{EngineError, WorkerFailureCode};
use crate::text::concat;

verus! {

/// A request frame, as far as the protocol reads it.
#[derive(Debug, PartialEq, Eq)]
pub enum WorkerRequest {
    Hello { protocol_version: u32 },
    Invoke { protocol_version: u32, invocation_id: String },
}

/// Where the protocol stands.
#[derive(Clone, Copy, Debug, PartialEq, Eq)]
pub enum ProtocolPhase {
    AwaitingHello,
    Serving,
    Closed,
}

/// What the worker does with a frame.
#[derive(Debug, PartialEq, Eq)]
pub enum ServerAction {
    /// Answer the handshake.
    SendReady,
    /// Run the invocation and answer it.
    Evaluate { invocation_id: String },
    /// Answer with this protocol failure, then stop: the code is always
    /// `InvalidProtocol` and the failure always retires the worker.
    FailAndStop {
        invocation_id: Option<String>,
        code: WorkerFailureCode,
        message: String,
        discard_worker: bool,
    },
    /// Stop reading.
    Stop,
}

/// The protocol state of one worker process.
#[derive(Debug)]
pub struct WorkerProtocol {
    pub protocol_version: u32,
    pub phase: ProtocolPhase,
}

/// The content of an action.
pub enum ActionModel {
    SendReady,
    Evaluate(Seq<char>),
    FailAndStop(Option<Seq<char>>, WorkerFailureCode, Seq<char>, bool),
    Stop,
}

pub open spec fn action_model(a: ServerAction) -> ActionModel {
    match a {
        ServerAction::SendReady => ActionModel::SendReady,
        ServerAction::Evaluate { invocation_id } => ActionModel::Evaluate(invocation_id@),
        ServerAction::FailAndStop { invocation_id, code, message, discard_worker } =>
            ActionModel::FailAndStop(
            match invocation_id {
                Some(i) => Some(i@),
                None => None,
            },
            code,
            message@,
            discard_worker,
        ),
        ServerAction::Stop => ActionModel::Stop,
    }
}

/// What a frame (or the end of input, `None`) does in a phase: the next
/// phase and the action.
pub open spec fn protocol_step(version: u32, phase: ProtocolPhase, frame: Option<WorkerRequest>) -> (
    ProtocolPhase,
    ActionModel,
) {
    match phase {
        ProtocolPhase::Closed => (ProtocolPhase::Closed, ActionModel::Stop),
        ProtocolPhase::AwaitingHello => match frame {
            None => (ProtocolPhase::Closed, ActionModel::Stop),
            Some(WorkerRequest::Hello { protocol_version }) => if protocol_version == version {
                (ProtocolPhase::Serving, ActionModel::SendReady)
            } else {
                (ProtocolPhase::Closed, ActionModel::FailAndStop(None, WorkerFailureCode::InvalidProtocol, "worker protocol handshake mismatch"@, true))
            },
            Some(WorkerRequest::Invoke { .. }) => (
                ProtocolPhase::Closed,
                ActionModel::FailAndStop(None, WorkerFailureCode::InvalidProtocol, "worker protocol handshake mismatch"@, true),
            ),
        },
        ProtocolPhase::Serving => match frame {
            None => (ProtocolPhase::Closed, ActionModel::Stop),
            Some(WorkerRequest::Hello { .. }) => (
                ProtocolPhase::Closed,
                ActionModel::FailAndStop(None, WorkerFailureCode::InvalidProtocol, "worker handshake may occur only once"@, true),
            ),
            Some(WorkerRequest::Invoke { protocol_version, invocation_id }) => if protocol_version == version {
                (ProtocolPhase::Serving, ActionModel::Evaluate(invocation_id@))
            } else {
                (
                    ProtocolPhase::Closed,
                    ActionModel::FailAndStop(Some(invocation_id@), WorkerFailureCode::InvalidProtocol, "worker invocation protocol mismatch"@, true),
                )
            },
        },
    }
}

impl WorkerProtocol {
    /// A worker that has not shaken hands.
    pub fn new(protocol_version: u32) -> (r: Self)
        ensures
            r.protocol_version == protocol_version,
            r.phase == ProtocolPhase::AwaitingHello,
    {
        WorkerProtocol { protocol_version, phase: ProtocolPhase::AwaitingHello }
    }

    /// Decides what a frame leads to; `None` is the end of input.
    pub fn on_frame(&mut self, frame: Option<WorkerRequest>) -> (action: ServerAction)
        ensures
            final(self).protocol_version == old(self).protocol_version,
            final(self).phase == protocol_step(old(self).protocol_version, old(self).phase, frame).0,
            action_model(action) == protocol_step(old(self).protocol_version, old(self).phase, frame).1,
    {
        match self.phase {
            ProtocolPhase::Closed => ServerAction::Stop,
            ProtocolPhase::AwaitingHello => match frame {
                None => {
                    self.phase = ProtocolPhase::Closed;
                    ServerAction::Stop
                },
                Some(WorkerRequest::Hello { protocol_version }) => {
                    if protocol_version == self.protocol_version {
                        self.phase = ProtocolPhase::Serving;
                        ServerAction::SendReady
                    } else {
                        self.phase = ProtocolPhase::Closed;
                        ServerAction::FailAndStop {
                            invocation_id: None,
                            code: WorkerFailureCode::InvalidProtocol,
                            message: "worker protocol handshake mismatch".to_owned(),
                            discard_worker: true,
                        }
                    }
                },
                Some(WorkerRequest::Invoke { .. }) => {
                    self.phase = ProtocolPhase::Closed;
                    ServerAction::FailAndStop {
                        invocation_id: None,
                        code: WorkerFailureCode::InvalidProtocol,
                        message: "worker protocol handshake mismatch".to_owned(),
                        discard_worker: true,
                    }
                },
            },
            ProtocolPhase::Serving => match frame {
                None => {
                    self.phase = ProtocolPhase::Closed;
                    ServerAction::Stop
                },
                Some(WorkerRequest::Hello { .. }) => {
                    self.phase = ProtocolPhase::Closed;
                    ServerAction::FailAndStop {
                        invocation_id: None,
                        code: WorkerFailureCode::InvalidProtocol,
                        message: "worker handshake may occur only once".to_owned(),
                        discard_worker: true,
                    }
                },
                Some(WorkerRequest::Invoke { protocol_version, invocation_id }) => {
                    if protocol_version == self.protocol_version {
                        ServerAction::Evaluate { invocation_id }
                    } else {
                        self.phase = ProtocolPhase::Closed;
                        ServerAction::FailAndStop {
                            invocation_id: Some(invocation_id),
                            code: WorkerFailureCode::InvalidProtocol,
                            message: "worker invocation protocol mismatch".to_owned(),
                            discard_worker: true,
                        }
                    }
                },
            },
        }
    }
}

/// No invocation runs before a successful handshake: from the first phase,
/// a frame leads to evaluation in no case, and a closed worker only stops.
pub proof fn lemma_no_evaluation_before_handshake(version: u32, frame: Option<WorkerRequest>)
    ensures
        !(protocol_step(version, ProtocolPhase::AwaitingHello, frame).1 is Evaluate),
        protocol_step(version, ProtocolPhase::Closed, frame) == (ProtocolPhase::Closed, ActionModel::Stop),
        protocol_step(version, ProtocolPhase::AwaitingHello, frame).0 != ProtocolPhase::AwaitingHello,
{
}

/// Every failure retires the worker: a failing frame always closes the
/// protocol, and its answer is an `InvalidProtocol` failure that asks for
/// the worker to be discarded.
pub proof fn lemma_failures_close(version: u32, phase: ProtocolPhase, frame: Option<WorkerRequest>)
    ensures
        protocol_step(version, phase, frame).1 is FailAndStop ==> protocol_step(version, phase, frame).0
            == ProtocolPhase::Closed,
        protocol_step(version, phase, frame).1 matches ActionModel::FailAndStop(_, code, _, discard)
            ==> code == WorkerFailureCode::InvalidProtocol && discard,
        protocol_step(version, phase, frame).1 is Evaluate ==> phase == ProtocolPhase::Serving
            && protocol_step(version, phase, frame).0 == ProtocolPhase::Serving,
{
}

/// A failed invocation's answer: its code and message, keeping the worker
/// (each invocation has its own engine context).
#[derive(Debug, PartialEq, Eq)]
pub struct InvocationFailure {
    pub invocation_id: String,
    pub code: WorkerFailureCode,
    pub message: String,
    pub discard_worker: bool,
}

/// The answer to an invocation whose evaluation failed.
pub fn engine_failure_response(invocation_id: String, error: &EngineError) -> (r: InvocationFailure)
    ensures
        r.invocation_id == invocation_id,
        r.code == error.code,
        r.message == error.message,
        !r.discard_worker,
{
    InvocationFailure { invocation_id, code: error.code, message: error.message.clone(), discard_worker: false }
}

/// How many invocations are running, against the maximum.
#[derive(Debug)]
pub struct ActiveInvocations {
    pub count: usize,
}

impl ActiveInvocations {
    /// Nothing running.
    pub fn new() -> (r: Self)
        ensures
            r.count == 0,
    {
        ActiveInvocations { count: 0 }
    }

    /// Starts an invocation when fewer than `maximum` run; a refused caller
    /// waits for a release.
    pub fn acquire(&mut self, maximum: usize) -> (started: bool)
        ensures
            started == (old(self).count < maximum),
            final(self).count == if started {
                old(self).count + 1
            } else {
                old(self).count as int
            },
    {
        if self.count < maximum {
            self.count = self.count + 1;
            true
        } else {
            false
        }
    }

    /// Ends an invocation.
    pub fn release(&mut self)
        ensures
            final(self).count == if old(self).count > 0 {
                old(self).count - 1
            } else {
                0
            },
    {
        if self.count > 0 {
            self.count = self.count - 1;
        }
    }

    /// Whether nothing runs, so the worker may finish.
    pub fn is_idle(&self) -> (r: bool)
        ensures
            r == (self.count == 0),
    {
        self.count == 0
    }
}

/// Why a worker stopped serving: its limits could not be installed, a
/// frame could not be read or written, a thread could not be started or
/// coordinated, or the response writer panicked.
#[derive(Debug, PartialEq, Eq)]
pub enum WorkerServerError {
    Limits(String),
    Protocol(String),
    Thread(String),
    Coordination(String),
    ResponseThreadPanicked,
}

pub open spec fn server_error_text(e: WorkerServerError) -> Seq<char> {
    match e {
        WorkerServerError::Limits(m) => "worker limits could not be installed: "@ + m@,
        WorkerServerError::Protocol(m) => m@,
        WorkerServerError::Thread(m) => "worker request thread could not be created: "@ + m@,
        WorkerServerError::Coordination(m) => "worker request coordination failed: "@ + m@,
        WorkerServerError::ResponseThreadPanicked => "worker response thread panicked"@,
    }
}

impl WorkerServerError {
    /// The error's message.
    pub fn message(&self) -> (r: String)
        ensures
            r@ == server_error_text(*self),
    {
        match self {
            WorkerServerError::Limits(m) => concat("worker limits could not be installed: ", m.as_str()),
            WorkerServerError::Protocol(m) => m.clone(),
            WorkerServerError::Thread(m) => concat("worker request thread could not be created: ", m.as_str()),
            WorkerServerError::Coordination(m) => concat("worker request coordination failed: ", m.as_str()),
            WorkerServerError::ResponseThreadPanicked => "worker response thread panicked".to_owned(),
        }
    }
}

} // verus!
