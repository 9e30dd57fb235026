//! Shared execution declarations and governed outcome contracts.
use vstd::prelude::*;

use crate::json::{JsonModel, JsonObject, JsonValue};
use crate::text::str_eq;

verus! {

/// Whether a value of the model satisfies a declared input type.
pub open spec fn accepts_spec(input_type: Seq<char>, value: JsonModel) -> bool {
    if input_type == "json"@ {
        true
    } else if input_type == "string"@ {
        value is Str
    } else if input_type == "number"@ {
        value is Int || value is Float
    } else if input_type == "integer"@ {
        value is Int
    } else if input_type == "boolean"@ {
        value is Bool
    } else if input_type == "object"@ {
        value is Object
    } else if input_type == "array"@ {
        value is Array
    } else {
        false
    }
}

/// One declared input shared by skills, local tools, inspection, and runtime
/// materialization.
#[derive(Debug, PartialEq)]
pub struct InputDefinition {
    pub input_type: String,
    pub required: bool,
    pub description: Option<String>,
    pub default: Option<JsonValue>,
    pub artifact: Option<bool>,
}

impl InputDefinition {
    /// Whether a concrete JSON value satisfies this input's type.
    pub fn accepts_value(&self, value: &JsonValue) -> (r: bool)
        ensures
            r == accepts_spec(self.input_type@, value@),
    {
        let t = self.input_type.as_str();
        if str_eq(t, "json") {
            true
        } else if str_eq(t, "string") {
            matches!(value, JsonValue::String(_))
        } else if str_eq(t, "number") {
            matches!(value, JsonValue::Number(_))
        } else if str_eq(t, "integer") {
            match value {
                JsonValue::Number(crate::json::JsonNumber::F64(_)) => false,
                JsonValue::Number(_) => true,
                _ => false,
            }
        } else if str_eq(t, "boolean") {
            matches!(value, JsonValue::Bool(_))
        } else if str_eq(t, "object") {
            matches!(value, JsonValue::Object(_))
        } else if str_eq(t, "array") {
            matches!(value, JsonValue::Array(_))
        } else {
            false
        }
    }
}

/// How a successful execution result is exposed to downstream graph context.
#[derive(Clone, Debug, PartialEq, Eq)]
pub struct ArtifactContract {
    pub emits: Option<Vec<String>>,
    pub named_emits: Option<Vec<(String, String)>>,
    pub packets: Option<Vec<(String, String)>>,
    pub wrap_as: Option<String>,
    pub packet: Option<String>,
}

#[derive(Clone, Copy, Debug, PartialEq, Eq)]
pub struct RetryPolicy {
    pub max_attempts: u64,
}

#[derive(Clone, Debug, PartialEq, Eq)]
pub struct IdempotencyPolicy {
    pub key: Option<String>,
}

#[derive(Clone, Copy, Debug, PartialEq, Eq)]
pub enum GovernedDisposition {
    Completed,
    NeedsAgent,
    PolicyDenied,
    ApprovalRequired,
    Observing,
    Escalated,
}

impl GovernedDisposition {
    /// The wire name (snake case).
    pub fn as_str(&self) -> (r: &'static str)
        ensures
            r@ == match *self {
                GovernedDisposition::Completed => "completed"@,
                GovernedDisposition::NeedsAgent => "needs_agent"@,
                GovernedDisposition::PolicyDenied => "policy_denied"@,
                GovernedDisposition::ApprovalRequired => "approval_required"@,
                GovernedDisposition::Observing => "observing"@,
                GovernedDisposition::Escalated => "escalated"@,
            },
    {
        match self {
            GovernedDisposition::Completed => "completed",
            GovernedDisposition::NeedsAgent => "needs_agent",
            GovernedDisposition::PolicyDenied => "policy_denied",
            GovernedDisposition::ApprovalRequired => "approval_required",
            GovernedDisposition::Observing => "observing",
            GovernedDisposition::Escalated => "escalated",
        }
    }
}

#[derive(Clone, Copy, Debug, PartialEq, Eq)]
pub enum OutcomeState {
    Pending,
    Complete,
    Expired,
}

impl OutcomeState {
    /// The wire name (snake case).
    pub fn as_str(&self) -> (r: &'static str)
        ensures
            r@ == match *self {
                OutcomeState::Pending => "pending"@,
                OutcomeState::Complete => "complete"@,
                OutcomeState::Expired => "expired"@,
            },
    {
        match self {
            OutcomeState::Pending => "pending",
            OutcomeState::Complete => "complete",
            OutcomeState::Expired => "expired",
        }
    }
}

#[derive(Debug, PartialEq)]
pub struct ReceiptOutcome {
    pub code: Option<String>,
    pub summary: Option<String>,
    pub observed_at: Option<String>,
    pub data: Option<JsonObject>,
}

#[derive(Clone, Debug, PartialEq, Eq)]
pub struct ReceiptSurfaceRef {
    pub surface_type: String,
    pub uri: String,
    pub label: Option<String>,
}

#[derive(Debug, PartialEq)]
pub struct InputContextCapture {
    pub capture: Option<bool>,
    pub source: Option<String>,
    pub max_bytes: Option<u64>,
    pub snapshot: Option<JsonValue>,
}

#[derive(Debug, PartialEq)]
pub struct ExecutionSemantics {
    pub disposition: Option<GovernedDisposition>,
    pub outcome_state: Option<OutcomeState>,
    pub outcome: Option<ReceiptOutcome>,
    pub input_context: Option<InputContextCapture>,
    pub surface_refs: Option<Vec<ReceiptSurfaceRef>>,
    pub evidence_refs: Option<Vec<ReceiptSurfaceRef>>,
}

} // verus!
