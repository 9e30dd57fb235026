//! Portable contracts for one digest-bound skill-authoring transaction.
use vstd::prelude::*;

use crate::text::str_eq;

verus! {
pub const SKILL_ARCHITECTURE_DECISION_SCHEMA: &'static str = "runx.skill.architecture_decision.v1";
pub const SKILL_ARCHITECTURE_PLAN_SCHEMA: &'static str = "runx.skill.architecture_plan.v1";
pub const SKILL_CHANGE_BUNDLE_SCHEMA: &'static str = "runx.skill.change_bundle.v1";
pub const SKILL_CHANGE_DRAFT_SCHEMA: &'static str = "runx.skill.change_draft.v1";
pub const SKILL_VALIDATION_RESULT_SCHEMA: &'static str = "runx.skill.validation_result.v1";
pub const SKILL_APPLY_RESULT_SCHEMA: &'static str = "runx.skill.apply_result.v1";

/// A string with at least one character.
#[derive(Debug, PartialEq, Eq)]
pub struct NonEmptyString {
    value: String,
}

impl Clone for NonEmptyString {
    fn clone(&self) -> (r: Self)
        ensures
            r.view_chars() == self.view_chars(),
    {
        proof {
            use_type_invariant(self);
        }
        NonEmptyString { value: self.value.clone() }
    }
}

impl NonEmptyString {
    #[verifier::type_invariant]
    spec fn wf(self) -> bool {
        self.value@.len() > 0
    }

    pub closed spec fn view_chars(self) -> Seq<char> {
        self.value@
    }

    /// The string, when it is not empty.
    pub fn new(value: String) -> (r: Option<Self>)
        ensures
            value@.len() > 0 <==> r is Some,
            r matches Some(s) ==> s.view_chars() == value@,
    {
        if value.as_str().unicode_len() == 0 {
            None
        } else {
            Some(NonEmptyString { value })
        }
    }

    /// The characters.
    pub fn as_str(&self) -> (r: &str)
        ensures
            r@ == self.view_chars(),
            r@.len() > 0,
    {
        proof {
            use_type_invariant(self);
        }
        self.value.as_str()
    }
}

/// The schema id of its contract.
#[derive(Clone, Copy, Debug, PartialEq, Eq)]
pub enum SkillArchitectureDecisionSchema {
    V1,
}

impl SkillArchitectureDecisionSchema {
    /// The schema id.
    pub fn as_str(self) -> (r: &'static str)
        ensures
            r@ == SKILL_ARCHITECTURE_DECISION_SCHEMA@,
    {
        SKILL_ARCHITECTURE_DECISION_SCHEMA
    }

    /// The variant a schema id names.
    pub fn parse(s: &str) -> (r: Option<Self>)
        ensures
            r is Some <==> s@ == SKILL_ARCHITECTURE_DECISION_SCHEMA@,
    {
        if str_eq(s, SKILL_ARCHITECTURE_DECISION_SCHEMA) {
            Some(SkillArchitectureDecisionSchema::V1)
        } else {
            None
        }
    }
}

/// The schema id of its contract.
#[derive(Clone, Copy, Debug, PartialEq, Eq)]
pub enum SkillArchitecturePlanSchema {
    V1,
}

impl SkillArchitecturePlanSchema {
    /// The schema id.
    pub fn as_str(self) -> (r: &'static str)
        ensures
            r@ == SKILL_ARCHITECTURE_PLAN_SCHEMA@,
    {
        SKILL_ARCHITECTURE_PLAN_SCHEMA
    }

    /// The variant a schema id names.
    pub fn parse(s: &str) -> (r: Option<Self>)
        ensures
            r is Some <==> s@ == SKILL_ARCHITECTURE_PLAN_SCHEMA@,
    {
        if str_eq(s, SKILL_ARCHITECTURE_PLAN_SCHEMA) {
            Some(SkillArchitecturePlanSchema::V1)
        } else {
            None
        }
    }
}

/// The schema id of its contract.
#[derive(Clone, Copy, Debug, PartialEq, Eq)]
pub enum SkillChangeBundleSchema {
    V1,
}

impl SkillChangeBundleSchema {
    /// The schema id.
    pub fn as_str(self) -> (r: &'static str)
        ensures
            r@ == SKILL_CHANGE_BUNDLE_SCHEMA@,
    {
        SKILL_CHANGE_BUNDLE_SCHEMA
    }

    /// The variant a schema id names.
    pub fn parse(s: &str) -> (r: Option<Self>)
        ensures
            r is Some <==> s@ == SKILL_CHANGE_BUNDLE_SCHEMA@,
    {
        if str_eq(s, SKILL_CHANGE_BUNDLE_SCHEMA) {
            Some(SkillChangeBundleSchema::V1)
        } else {
            None
        }
    }
}

/// The schema id of its contract.
#[derive(Clone, Copy, Debug, PartialEq, Eq)]
pub enum SkillChangeDraftSchema {
    V1,
}

impl SkillChangeDraftSchema {
    /// The schema id.
    pub fn as_str(self) -> (r: &'static str)
        ensures
            r@ == SKILL_CHANGE_DRAFT_SCHEMA@,
    {
        SKILL_CHANGE_DRAFT_SCHEMA
    }

    /// The variant a schema id names.
    pub fn parse(s: &str) -> (r: Option<Self>)
        ensures
            r is Some <==> s@ == SKILL_CHANGE_DRAFT_SCHEMA@,
    {
        if str_eq(s, SKILL_CHANGE_DRAFT_SCHEMA) {
            Some(SkillChangeDraftSchema::V1)
        } else {
            None
        }
    }
}

/// The schema id of its contract.
#[derive(Clone, Copy, Debug, PartialEq, Eq)]
pub enum SkillValidationResultSchema {
    V1,
}

impl SkillValidationResultSchema {
    /// The schema id.
    pub fn as_str(self) -> (r: &'static str)
        ensures
            r@ == SKILL_VALIDATION_RESULT_SCHEMA@,
    {
        SKILL_VALIDATION_RESULT_SCHEMA
    }

    /// The variant a schema id names.
    pub fn parse(s: &str) -> (r: Option<Self>)
        ensures
            r is Some <==> s@ == SKILL_VALIDATION_RESULT_SCHEMA@,
    {
        if str_eq(s, SKILL_VALIDATION_RESULT_SCHEMA) {
            Some(SkillValidationResultSchema::V1)
        } else {
            None
        }
    }
}

/// The schema id of its contract.
#[derive(Clone, Copy, Debug, PartialEq, Eq)]
pub enum SkillApplyResultSchema {
    V1,
}

impl SkillApplyResultSchema {
    /// The schema id.
    pub fn as_str(self) -> (r: &'static str)
        ensures
            r@ == SKILL_APPLY_RESULT_SCHEMA@,
    {
        SKILL_APPLY_RESULT_SCHEMA
    }

    /// The variant a schema id names.
    pub fn parse(s: &str) -> (r: Option<Self>)
        ensures
            r is Some <==> s@ == SKILL_APPLY_RESULT_SCHEMA@,
    {
        if str_eq(s, SKILL_APPLY_RESULT_SCHEMA) {
            Some(SkillApplyResultSchema::V1)
        } else {
            None
        }
    }
}

#[derive(Clone, Copy, Debug, PartialEq, Eq)]
pub enum SkillArchitectureDisposition {
    Build,
    ExtendExisting,
    NoSkill,
    NeedsCore,
}

impl SkillArchitectureDisposition {
    pub open spec fn wire_name(self) -> Seq<char> {
        match self {
                SkillArchitectureDisposition::Build => "build"@,
                SkillArchitectureDisposition::ExtendExisting => "extend_existing"@,
                SkillArchitectureDisposition::NoSkill => "no_skill"@,
                SkillArchitectureDisposition::NeedsCore => "needs_core"@,
        }
    }

    /// Wire names tell the variants apart, so a name read back is the
    /// variant that wrote it.
    pub proof fn lemma_wire_names_distinct(self, other: Self)
        ensures
            self.wire_name() == other.wire_name() ==> self == other,
    {
        reveal_strlit("build");
        reveal_strlit("extend_existing");
        reveal_strlit("no_skill");
        reveal_strlit("needs_core");
        if self != other {
            assert(self.wire_name().len() != other.wire_name().len() || self.wire_name()[0] != other.wire_name()[0]
                || self.wire_name()[1] != other.wire_name()[1]);
        }
    }

    /// The wire name (snake case).
    pub fn as_str(self) -> (r: &'static str)
        ensures
            r@ == self.wire_name(),
    {
        match self {
            SkillArchitectureDisposition::Build => "build",
            SkillArchitectureDisposition::ExtendExisting => "extend_existing",
            SkillArchitectureDisposition::NoSkill => "no_skill",
            SkillArchitectureDisposition::NeedsCore => "needs_core",
        }
    }

    /// The variant a wire name names.
    pub fn parse(s: &str) -> (r: Option<Self>)
        ensures
            r matches Some(v) ==> v.wire_name() == s@,
            r is None ==> forall|v: Self| v.wire_name() != s@,
    {
        if str_eq(s, "build") {
            Some(SkillArchitectureDisposition::Build)
        } else 
        if str_eq(s, "extend_existing") {
            Some(SkillArchitectureDisposition::ExtendExisting)
        } else 
        if str_eq(s, "no_skill") {
            Some(SkillArchitectureDisposition::NoSkill)
        } else 
        if str_eq(s, "needs_core") {
            Some(SkillArchitectureDisposition::NeedsCore)
        } else {
            None
        }
    }
}

#[derive(Clone, Copy, Debug, PartialEq, Eq)]
pub enum SkillExecutionLane {
    Manual,
    Graph,
    AgentTask,
    NativeCapability,
    DomainModule,
    CliTool,
    ProviderAdapter,
}

impl SkillExecutionLane {
    pub open spec fn wire_name(self) -> Seq<char> {
        match self {
                SkillExecutionLane::Manual => "manual"@,
                SkillExecutionLane::Graph => "graph"@,
                SkillExecutionLane::AgentTask => "agent_task"@,
                SkillExecutionLane::NativeCapability => "native_capability"@,
                SkillExecutionLane::DomainModule => "domain_module"@,
                SkillExecutionLane::CliTool => "cli_tool"@,
                SkillExecutionLane::ProviderAdapter => "provider_adapter"@,
        }
    }

    /// Wire names tell the variants apart, so a name read back is the
    /// variant that wrote it.
    pub proof fn lemma_wire_names_distinct(self, other: Self)
        ensures
            self.wire_name() == other.wire_name() ==> self == other,
    {
        reveal_strlit("manual");
        reveal_strlit("graph");
        reveal_strlit("agent_task");
        reveal_strlit("native_capability");
        reveal_strlit("domain_module");
        reveal_strlit("cli_tool");
        reveal_strlit("provider_adapter");
        if self != other {
            assert(self.wire_name().len() != other.wire_name().len() || self.wire_name()[0] != other.wire_name()[0]
                || self.wire_name()[1] != other.wire_name()[1]);
        }
    }

    /// The wire name (snake case).
    pub fn as_str(self) -> (r: &'static str)
        ensures
            r@ == self.wire_name(),
    {
        match self {
            SkillExecutionLane::Manual => "manual",
            SkillExecutionLane::Graph => "graph",
            SkillExecutionLane::AgentTask => "agent_task",
            SkillExecutionLane::NativeCapability => "native_capability",
            SkillExecutionLane::DomainModule => "domain_module",
            SkillExecutionLane::CliTool => "cli_tool",
            SkillExecutionLane::ProviderAdapter => "provider_adapter",
        }
    }

    /// The variant a wire name names.
    pub fn parse(s: &str) -> (r: Option<Self>)
        ensures
            r matches Some(v) ==> v.wire_name() == s@,
            r is None ==> forall|v: Self| v.wire_name() != s@,
    {
        if str_eq(s, "manual") {
            Some(SkillExecutionLane::Manual)
        } else 
        if str_eq(s, "graph") {
            Some(SkillExecutionLane::Graph)
        } else 
        if str_eq(s, "agent_task") {
            Some(SkillExecutionLane::AgentTask)
        } else 
        if str_eq(s, "native_capability") {
            Some(SkillExecutionLane::NativeCapability)
        } else 
        if str_eq(s, "domain_module") {
            Some(SkillExecutionLane::DomainModule)
        } else 
        if str_eq(s, "cli_tool") {
            Some(SkillExecutionLane::CliTool)
        } else 
        if str_eq(s, "provider_adapter") {
            Some(SkillExecutionLane::ProviderAdapter)
        } else {
            None
        }
    }
}

#[derive(Clone, Copy, Debug, PartialEq, Eq)]
pub enum SkillEffectClass {
    NoEffect,
    Read,
    Draft,
    Mutate,
    Financial,
}

impl SkillEffectClass {
    pub open spec fn wire_name(self) -> Seq<char> {
        match self {
                SkillEffectClass::NoEffect => "none"@,
                SkillEffectClass::Read => "read"@,
                SkillEffectClass::Draft => "draft"@,
                SkillEffectClass::Mutate => "mutate"@,
                SkillEffectClass::Financial => "financial"@,
        }
    }

    /// Wire names tell the variants apart, so a name read back is the
    /// variant that wrote it.
    pub proof fn lemma_wire_names_distinct(self, other: Self)
        ensures
            self.wire_name() == other.wire_name() ==> self == other,
    {
        reveal_strlit("none");
        reveal_strlit("read");
        reveal_strlit("draft");
        reveal_strlit("mutate");
        reveal_strlit("financial");
        if self != other {
            assert(self.wire_name().len() != other.wire_name().len() || self.wire_name()[0] != other.wire_name()[0]
                || self.wire_name()[1] != other.wire_name()[1]);
        }
    }

    /// The wire name (snake case).
    pub fn as_str(self) -> (r: &'static str)
        ensures
            r@ == self.wire_name(),
    {
        match self {
            SkillEffectClass::NoEffect => "none",
            SkillEffectClass::Read => "read",
            SkillEffectClass::Draft => "draft",
            SkillEffectClass::Mutate => "mutate",
            SkillEffectClass::Financial => "financial",
        }
    }

    /// The variant a wire name names.
    pub fn parse(s: &str) -> (r: Option<Self>)
        ensures
            r matches Some(v) ==> v.wire_name() == s@,
            r is None ==> forall|v: Self| v.wire_name() != s@,
    {
        if str_eq(s, "none") {
            Some(SkillEffectClass::NoEffect)
        } else 
        if str_eq(s, "read") {
            Some(SkillEffectClass::Read)
        } else 
        if str_eq(s, "draft") {
            Some(SkillEffectClass::Draft)
        } else 
        if str_eq(s, "mutate") {
            Some(SkillEffectClass::Mutate)
        } else 
        if str_eq(s, "financial") {
            Some(SkillEffectClass::Financial)
        } else {
            None
        }
    }
}

#[derive(Clone, Copy, Debug, PartialEq, Eq)]
pub enum SkillApprovalRequirement {
    NotRequired,
    Policy,
    Human,
}

impl SkillApprovalRequirement {
    pub open spec fn wire_name(self) -> Seq<char> {
        match self {
                SkillApprovalRequirement::NotRequired => "none"@,
                SkillApprovalRequirement::Policy => "policy"@,
                SkillApprovalRequirement::Human => "human"@,
        }
    }

    /// Wire names tell the variants apart, so a name read back is the
    /// variant that wrote it.
    pub proof fn lemma_wire_names_distinct(self, other: Self)
        ensures
            self.wire_name() == other.wire_name() ==> self == other,
    {
        reveal_strlit("none");
        reveal_strlit("policy");
        reveal_strlit("human");
        if self != other {
            assert(self.wire_name().len() != other.wire_name().len() || self.wire_name()[0] != other.wire_name()[0]
                || self.wire_name()[1] != other.wire_name()[1]);
        }
    }

    /// The wire name (snake case).
    pub fn as_str(self) -> (r: &'static str)
        ensures
            r@ == self.wire_name(),
    {
        match self {
            SkillApprovalRequirement::NotRequired => "none",
            SkillApprovalRequirement::Policy => "policy",
            SkillApprovalRequirement::Human => "human",
        }
    }

    /// The variant a wire name names.
    pub fn parse(s: &str) -> (r: Option<Self>)
        ensures
            r matches Some(v) ==> v.wire_name() == s@,
            r is None ==> forall|v: Self| v.wire_name() != s@,
    {
        if str_eq(s, "none") {
            Some(SkillApprovalRequirement::NotRequired)
        } else 
        if str_eq(s, "policy") {
            Some(SkillApprovalRequirement::Policy)
        } else 
        if str_eq(s, "human") {
            Some(SkillApprovalRequirement::Human)
        } else {
            None
        }
    }
}

#[derive(Clone, Copy, Debug, PartialEq, Eq)]
pub enum SkillProofKind {
    Contract,
    Harness,
    Regression,
    Security,
    Performance,
    OperatorTrial,
}

impl SkillProofKind {
    pub open spec fn wire_name(self) -> Seq<char> {
        match self {
                SkillProofKind::Contract => "contract"@,
                SkillProofKind::Harness => "harness"@,
                SkillProofKind::Regression => "regression"@,
                SkillProofKind::Security => "security"@,
                SkillProofKind::Performance => "performance"@,
                SkillProofKind::OperatorTrial => "operator_trial"@,
        }
    }

    /// Wire names tell the variants apart, so a name read back is the
    /// variant that wrote it.
    pub proof fn lemma_wire_names_distinct(self, other: Self)
        ensures
            self.wire_name() == other.wire_name() ==> self == other,
    {
        reveal_strlit("contract");
        reveal_strlit("harness");
        reveal_strlit("regression");
        reveal_strlit("security");
        reveal_strlit("performance");
        reveal_strlit("operator_trial");
        if self != other {
            assert(self.wire_name().len() != other.wire_name().len() || self.wire_name()[0] != other.wire_name()[0]
                || self.wire_name()[1] != other.wire_name()[1]);
        }
    }

    /// The wire name (snake case).
    pub fn as_str(self) -> (r: &'static str)
        ensures
            r@ == self.wire_name(),
    {
        match self {
            SkillProofKind::Contract => "contract",
            SkillProofKind::Harness => "harness",
            SkillProofKind::Regression => "regression",
            SkillProofKind::Security => "security",
            SkillProofKind::Performance => "performance",
            SkillProofKind::OperatorTrial => "operator_trial",
        }
    }

    /// The variant a wire name names.
    pub fn parse(s: &str) -> (r: Option<Self>)
        ensures
            r matches Some(v) ==> v.wire_name() == s@,
            r is None ==> forall|v: Self| v.wire_name() != s@,
    {
        if str_eq(s, "contract") {
            Some(SkillProofKind::Contract)
        } else 
        if str_eq(s, "harness") {
            Some(SkillProofKind::Harness)
        } else 
        if str_eq(s, "regression") {
            Some(SkillProofKind::Regression)
        } else 
        if str_eq(s, "security") {
            Some(SkillProofKind::Security)
        } else 
        if str_eq(s, "performance") {
            Some(SkillProofKind::Performance)
        } else 
        if str_eq(s, "operator_trial") {
            Some(SkillProofKind::OperatorTrial)
        } else {
            None
        }
    }
}

#[derive(Clone, Copy, Debug, PartialEq, Eq)]
pub enum SkillChangeDecision {
    Write,
    NoSkill,
    NoChange,
    NeedsCore,
}

impl SkillChangeDecision {
    pub open spec fn wire_name(self) -> Seq<char> {
        match self {
                SkillChangeDecision::Write => "write"@,
                SkillChangeDecision::NoSkill => "no_skill"@,
                SkillChangeDecision::NoChange => "no_change"@,
                SkillChangeDecision::NeedsCore => "needs_core"@,
        }
    }

    /// Wire names tell the variants apart, so a name read back is the
    /// variant that wrote it.
    pub proof fn lemma_wire_names_distinct(self, other: Self)
        ensures
            self.wire_name() == other.wire_name() ==> self == other,
    {
        reveal_strlit("write");
        reveal_strlit("no_skill");
        reveal_strlit("no_change");
        reveal_strlit("needs_core");
        if self != other {
            assert(self.wire_name().len() != other.wire_name().len() || self.wire_name()[0] != other.wire_name()[0]
                || self.wire_name()[1] != other.wire_name()[1]);
        }
    }

    /// The wire name (snake case).
    pub fn as_str(self) -> (r: &'static str)
        ensures
            r@ == self.wire_name(),
    {
        match self {
            SkillChangeDecision::Write => "write",
            SkillChangeDecision::NoSkill => "no_skill",
            SkillChangeDecision::NoChange => "no_change",
            SkillChangeDecision::NeedsCore => "needs_core",
        }
    }

    /// The variant a wire name names.
    pub fn parse(s: &str) -> (r: Option<Self>)
        ensures
            r matches Some(v) ==> v.wire_name() == s@,
            r is None ==> forall|v: Self| v.wire_name() != s@,
    {
        if str_eq(s, "write") {
            Some(SkillChangeDecision::Write)
        } else 
        if str_eq(s, "no_skill") {
            Some(SkillChangeDecision::NoSkill)
        } else 
        if str_eq(s, "no_change") {
            Some(SkillChangeDecision::NoChange)
        } else 
        if str_eq(s, "needs_core") {
            Some(SkillChangeDecision::NeedsCore)
        } else {
            None
        }
    }
}

#[derive(Clone, Copy, Debug, PartialEq, Eq)]
pub enum SkillValidationCheckStatus {
    Passed,
    Skipped,
}

impl SkillValidationCheckStatus {
    pub open spec fn wire_name(self) -> Seq<char> {
        match self {
                SkillValidationCheckStatus::Passed => "passed"@,
                SkillValidationCheckStatus::Skipped => "skipped"@,
        }
    }

    /// Wire names tell the variants apart, so a name read back is the
    /// variant that wrote it.
    pub proof fn lemma_wire_names_distinct(self, other: Self)
        ensures
            self.wire_name() == other.wire_name() ==> self == other,
    {
        reveal_strlit("passed");
        reveal_strlit("skipped");
        if self != other {
            assert(self.wire_name().len() != other.wire_name().len() || self.wire_name()[0] != other.wire_name()[0]
                || self.wire_name()[1] != other.wire_name()[1]);
        }
    }

    /// The wire name (snake case).
    pub fn as_str(self) -> (r: &'static str)
        ensures
            r@ == self.wire_name(),
    {
        match self {
            SkillValidationCheckStatus::Passed => "passed",
            SkillValidationCheckStatus::Skipped => "skipped",
        }
    }

    /// The variant a wire name names.
    pub fn parse(s: &str) -> (r: Option<Self>)
        ensures
            r matches Some(v) ==> v.wire_name() == s@,
            r is None ==> forall|v: Self| v.wire_name() != s@,
    {
        if str_eq(s, "passed") {
            Some(SkillValidationCheckStatus::Passed)
        } else 
        if str_eq(s, "skipped") {
            Some(SkillValidationCheckStatus::Skipped)
        } else {
            None
        }
    }
}

#[derive(Clone, Copy, Debug, PartialEq, Eq)]
pub enum SkillApplyVerdict {
    Unchanged,
    NeedsCore,
    ValidatedAndApplied,
}

impl SkillApplyVerdict {
    pub open spec fn wire_name(self) -> Seq<char> {
        match self {
                SkillApplyVerdict::Unchanged => "unchanged"@,
                SkillApplyVerdict::NeedsCore => "needs_core"@,
                SkillApplyVerdict::ValidatedAndApplied => "validated_and_applied"@,
        }
    }

    /// Wire names tell the variants apart, so a name read back is the
    /// variant that wrote it.
    pub proof fn lemma_wire_names_distinct(self, other: Self)
        ensures
            self.wire_name() == other.wire_name() ==> self == other,
    {
        reveal_strlit("unchanged");
        reveal_strlit("needs_core");
        reveal_strlit("validated_and_applied");
        if self != other {
            assert(self.wire_name().len() != other.wire_name().len() || self.wire_name()[0] != other.wire_name()[0]
                || self.wire_name()[1] != other.wire_name()[1]);
        }
    }

    /// The wire name (snake case).
    pub fn as_str(self) -> (r: &'static str)
        ensures
            r@ == self.wire_name(),
    {
        match self {
            SkillApplyVerdict::Unchanged => "unchanged",
            SkillApplyVerdict::NeedsCore => "needs_core",
            SkillApplyVerdict::ValidatedAndApplied => "validated_and_applied",
        }
    }

    /// The variant a wire name names.
    pub fn parse(s: &str) -> (r: Option<Self>)
        ensures
            r matches Some(v) ==> v.wire_name() == s@,
            r is None ==> forall|v: Self| v.wire_name() != s@,
    {
        if str_eq(s, "unchanged") {
            Some(SkillApplyVerdict::Unchanged)
        } else 
        if str_eq(s, "needs_core") {
            Some(SkillApplyVerdict::NeedsCore)
        } else 
        if str_eq(s, "validated_and_applied") {
            Some(SkillApplyVerdict::ValidatedAndApplied)
        } else {
            None
        }
    }
}

#[derive(Clone, Debug, PartialEq, Eq)]
pub struct SkillKnowledgeContract {
    pub purpose: NonEmptyString,
    pub evidence_required: Vec<NonEmptyString>,
    pub decision_logic: Vec<NonEmptyString>,
    pub stop_conditions: Vec<NonEmptyString>,
    pub recovery: Vec<NonEmptyString>,
}

#[derive(Clone, Debug, PartialEq, Eq)]
pub struct SkillBehaviorDecision {
    pub id: NonEmptyString,
    pub outcome: NonEmptyString,
    pub lane: SkillExecutionLane,
    pub reuse_ref: Option<NonEmptyString>,
    pub domain_module_justification: Option<NonEmptyString>,
}

#[derive(Clone, Debug, PartialEq, Eq)]
pub struct SkillNativeReuseEvidence {
    pub inspected_capabilities: Vec<NonEmptyString>,
    pub selected_capabilities: Vec<NonEmptyString>,
    pub missing_capabilities: Vec<NonEmptyString>,
}

#[derive(Clone, Debug, PartialEq, Eq)]
pub struct SkillEffectRequirement {
    pub effect: SkillEffectClass,
    pub authority_scopes: Vec<NonEmptyString>,
    pub approval: SkillApprovalRequirement,
    pub provider_boundary: bool,
}

#[derive(Clone, Debug, PartialEq, Eq)]
pub struct SkillChainPlan {
    pub context_skills: Vec<NonEmptyString>,
    pub routes: Vec<NonEmptyString>,
}

#[derive(Clone, Copy, Debug, PartialEq, Eq)]
pub struct SkillResourceBudget {
    pub max_files: u64,
    pub max_executable_lines: u64,
    pub max_fanout: u64,
    pub max_process_spawns: u64,
    pub network_allowed: bool,
}

#[derive(Clone, Debug, PartialEq, Eq)]
pub struct SkillProofRequirement {
    pub name: NonEmptyString,
    pub kind: SkillProofKind,
    pub expected: NonEmptyString,
}

#[derive(Clone, Debug, PartialEq, Eq)]
pub struct SkillArchitectureDecision {
    pub schema: SkillArchitectureDecisionSchema,
    pub disposition: SkillArchitectureDisposition,
    pub objective: NonEmptyString,
    pub operator_value: NonEmptyString,
    pub knowledge_contract: SkillKnowledgeContract,
    pub required_behaviors: Vec<SkillBehaviorDecision>,
    pub native_reuse: SkillNativeReuseEvidence,
    pub effects: Vec<SkillEffectRequirement>,
    pub skill_chain: SkillChainPlan,
    pub resource_budget: SkillResourceBudget,
    pub preservation_obligations: Vec<NonEmptyString>,
    pub deletions: Vec<NonEmptyString>,
    pub proof_plan: Vec<SkillProofRequirement>,
}

/// The exact architecture decision admitted against one inspected package
/// state; `plan_digest` binds both fields.
#[derive(Clone, Debug, PartialEq, Eq)]
pub struct SkillArchitecturePlan {
    pub schema: SkillArchitecturePlanSchema,
    pub base_digest: NonEmptyString,
    pub plan_digest: NonEmptyString,
    pub architecture: SkillArchitectureDecision,
}

#[derive(Clone, Debug, PartialEq, Eq)]
pub struct SkillFileWrite {
    pub path: NonEmptyString,
    pub contents: String,
}

#[derive(Clone, Debug, PartialEq, Eq)]
pub struct SkillExpectedOutput {
    pub name: NonEmptyString,
    pub value_type: NonEmptyString,
    pub packet: Option<NonEmptyString>,
}

/// Agent-authored package bytes and intent before the runtime binds them to
/// an inspected package state; it holds no digest.
#[derive(Clone, Debug, PartialEq, Eq)]
pub struct SkillChangeDraft {
    pub schema: SkillChangeDraftSchema,
    pub decision: SkillChangeDecision,
    pub summary: NonEmptyString,
    pub non_goals: Vec<NonEmptyString>,
    pub writes: Vec<SkillFileWrite>,
    pub deletes: Vec<NonEmptyString>,
    pub expected_outputs: Vec<SkillExpectedOutput>,
}

#[derive(Clone, Debug, PartialEq, Eq)]
pub struct SkillChangeBundle {
    pub schema: SkillChangeBundleSchema,
    pub decision: SkillChangeDecision,
    pub base_digest: NonEmptyString,
    pub plan_digest: NonEmptyString,
    pub architecture: SkillArchitectureDecision,
    pub summary: NonEmptyString,
    pub non_goals: Vec<NonEmptyString>,
    pub writes: Vec<SkillFileWrite>,
    pub deletes: Vec<NonEmptyString>,
    pub expected_outputs: Vec<SkillExpectedOutput>,
}

#[derive(Clone, Debug, PartialEq, Eq)]
pub struct SkillValidationCheck {
    pub name: NonEmptyString,
    pub status: SkillValidationCheckStatus,
    pub detail: NonEmptyString,
}

#[derive(Clone, Copy, Debug, PartialEq, Eq)]
pub struct SkillPackageMetrics {
    pub files: u64,
    pub bytes: u64,
    pub production_lines: u64,
    pub test_lines: u64,
    pub generated_lines: u64,
    pub executable_files: u64,
    pub executable_lines: u64,
}

#[derive(Clone, Copy, Debug, PartialEq, Eq)]
pub struct SkillPackageDelta {
    pub files: i64,
    pub bytes: i64,
    pub production_lines: i64,
    pub test_lines: i64,
    pub generated_lines: i64,
    pub executable_files: i64,
    pub executable_lines: i64,
}

impl Default for SkillPackageMetrics {
    fn default() -> (r: Self)
        ensures
            r == (SkillPackageMetrics {
                files: 0,
                bytes: 0,
                production_lines: 0,
                test_lines: 0,
                generated_lines: 0,
                executable_files: 0,
                executable_lines: 0,
            }),
    {
        SkillPackageMetrics {
            files: 0,
            bytes: 0,
            production_lines: 0,
            test_lines: 0,
            generated_lines: 0,
            executable_files: 0,
            executable_lines: 0,
        }
    }
}

impl Default for SkillPackageDelta {
    fn default() -> (r: Self)
        ensures
            r == (SkillPackageDelta {
                files: 0,
                bytes: 0,
                production_lines: 0,
                test_lines: 0,
                generated_lines: 0,
                executable_files: 0,
                executable_lines: 0,
            }),
    {
        SkillPackageDelta {
            files: 0,
            bytes: 0,
            production_lines: 0,
            test_lines: 0,
            generated_lines: 0,
            executable_files: 0,
            executable_lines: 0,
        }
    }
}

#[derive(Clone, Debug, PartialEq, Eq)]
pub struct SkillValidationResult {
    pub schema: SkillValidationResultSchema,
    pub target_dir: NonEmptyString,
    pub base_digest: NonEmptyString,
    pub plan_digest: NonEmptyString,
    pub candidate_digest: NonEmptyString,
    pub checks: Vec<SkillValidationCheck>,
    pub before: SkillPackageMetrics,
    pub after: SkillPackageMetrics,
    pub delta: SkillPackageDelta,
    pub residual_risks: Vec<NonEmptyString>,
}

#[derive(Clone, Debug, PartialEq, Eq)]
pub struct SkillApplyResult {
    pub schema: SkillApplyResultSchema,
    pub target_dir: NonEmptyString,
    pub decision: SkillChangeDecision,
    pub verdict: SkillApplyVerdict,
    pub base_digest: NonEmptyString,
    pub plan_digest: NonEmptyString,
    pub package_digest: NonEmptyString,
    pub changed_paths: Vec<NonEmptyString>,
    pub deleted_paths: Vec<NonEmptyString>,
    pub validation: Option<SkillValidationResult>,
    pub residual_risks: Vec<NonEmptyString>,
}

} // verus!
