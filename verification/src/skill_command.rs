//! The decisions of `runx skill`: whether the development override may
//! auto-approve operator context, what a prepared run needs before it runs,
//! how the operator's approval is judged, and what is answered when
//! approval is still owed; and the command itself as a machine that, from
//! what each outside step gave back, names the next step or the failure
//! and its code. Resolving, preparing, running, prompting and printing are
//! the caller's.
use vstd::prelude::*;

use crate::agent_run::{eq_ignore_ascii_case, eq_ignore_ascii_case_spec};
use crate::json::{JsonModel, JsonObject, JsonValue};
use crate::scheduler::env_lookup;
use crate::text::{concat, is_blank, str_eq, trim, trim_spec};

verus! {

/// What the command does with the skill.
#[derive(Clone, Copy, Debug, PartialEq, Eq)]
pub enum SkillAction {
    Inspect,
    Run,
}

/// A variable counts as set when it holds more than whitespace.
pub open spec fn set_value(v: Option<String>) -> bool {
    v matches Some(s) && trim_spec(s@).len() > 0
}

/// Production receipt signing is configured when any of the signer's
/// variables (key id, seed, issuer type) is set.
pub fn production_receipt_signing_configured(signer_values: &Vec<Option<String>>) -> (r: bool)
    ensures
        r == exists|i: int| 0 <= i < signer_values@.len() && set_value(#[trigger] signer_values@[i]),
{
    let mut i: usize = 0;
    while i < signer_values.len()
        invariant
            i <= signer_values@.len(),
            forall|j: int| 0 <= j < i ==> !set_value(#[trigger] signer_values@[j]),
        decreases signer_values.len() - i,
    {
        match &signer_values[i] {
            Some(v) => {
                if !is_blank(v.as_str()) {
                    assert(set_value(signer_values@[i as int]));
                    return true;
                }
            },
            None => {},
        }
        i = i + 1;
    }
    false
}

/// The development override auto-approves only when it was asked for and
/// no production signer is configured.
pub fn development_auto_approve(requested: bool, signing_configured: bool) -> (r: bool)
    ensures
        r == (requested && !signing_configured),
{
    requested && !signing_configured
}

/// What a resolved skill leads to before any run is prepared.
#[derive(Clone, Copy, Debug, PartialEq, Eq)]
pub enum SkillGate {
    /// Show the inspection.
    Inspect,
    /// Ask for the credential the runner needs.
    NeedsCredential,
    /// Go on to run.
    Run,
}

/// Inspecting needs nothing more; running needs any credential the runner
/// declares to be ready (`credential_ready` is `None` when it declares
/// none).
pub fn skill_gate(action: SkillAction, credential_ready: Option<bool>) -> (r: SkillGate)
    ensures
        r == if action == SkillAction::Inspect {
            SkillGate::Inspect
        } else if credential_ready == Some(false) {
            SkillGate::NeedsCredential
        } else {
            SkillGate::Run
        },
{
    match action {
        SkillAction::Inspect => SkillGate::Inspect,
        SkillAction::Run => match credential_ready {
            Some(false) => SkillGate::NeedsCredential,
            _ => SkillGate::Run,
        },
    }
}

/// What a prepared run leads to.
#[derive(Clone, Copy, Debug, PartialEq, Eq)]
pub enum PreparedGate {
    /// Preparation was blocked; the run fails.
    Blocked,
    /// Nothing needs approval: admit the safe context and run.
    AdmitSafe,
    /// Operator approval must be settled first.
    Authorize,
}

/// A blocked preparation fails; a run that needs no approval, and for
/// which none was supplied, is admitted as safe; otherwise approval is
/// settled first.
pub fn prepared_gate(blocked: bool, requires_approval: bool, approval_supplied: bool) -> (r: PreparedGate)
    ensures
        r == if blocked {
            PreparedGate::Blocked
        } else if !requires_approval && !approval_supplied {
            PreparedGate::AdmitSafe
        } else {
            PreparedGate::Authorize
        },
{
    if blocked {
        PreparedGate::Blocked
    } else if !requires_approval && !approval_supplied {
        PreparedGate::AdmitSafe
    } else {
        PreparedGate::Authorize
    }
}

/// How operator approval of a prepared run is settled.
#[derive(Debug, PartialEq, Eq)]
pub enum OperatorAuthorization {
    /// Approved, in this mode.
    Approved(String),
    /// Approval is owed and cannot be asked for here.
    NeedsApproval,
    /// The operator is to be asked at the terminal.
    AskOperator,
    /// Refused, with a message and an error code.
    Denied { message: String, code: String },
}

pub open spec fn stale_message(skill_ref: Seq<char>, digest: Seq<char>, approved: Seq<char>) -> Seq<char> {
    "operator context approval is stale for "@ + skill_ref + ": prepared "@ + digest + "; supplied "@
        + approved + ". Review and approve the new digest"@
}

/// An explicit approval must name the prepared digest; otherwise the
/// development override approves; otherwise the operator is asked at an
/// interactive terminal, and approval is owed elsewhere.
pub fn authorize_operator_context(
    approve_operator_context: Option<&str>,
    digest: &str,
    skill_ref: &str,
    development_auto_approve: bool,
    non_interactive: bool,
    terminals: bool,
) -> (r: OperatorAuthorization)
    ensures
        match approve_operator_context {
            Some(a) => if a@ == digest@ {
                r matches OperatorAuthorization::Approved(m) && m@ == "explicit_digest"@
            } else {
                r matches OperatorAuthorization::Denied { message, code } && message@ == stale_message(
                    skill_ref@,
                    digest@,
                    a@,
                ) && code@ == "operator_context_approval_mismatch"@
            },
            None => if development_auto_approve {
                r matches OperatorAuthorization::Approved(m) && m@ == "development_auto_approve"@
            } else if non_interactive || !terminals {
                r is NeedsApproval
            } else {
                r is AskOperator
            },
        },
        r matches OperatorAuthorization::Approved(m) ==> Some(m@) == authorization_mode(
            match approve_operator_context {
                Some(a) => Some(a@),
                None => None,
            },
            digest@,
            development_auto_approve,
        ),
{
    match approve_operator_context {
        Some(approved) => {
            if str_eq(approved, digest) {
                return OperatorAuthorization::Approved("explicit_digest".to_owned());
            }
            let a = concat("operator context approval is stale for ", skill_ref);
            let b = concat(a.as_str(), ": prepared ");
            let c = concat(b.as_str(), digest);
            let d = concat(c.as_str(), "; supplied ");
            let e = concat(d.as_str(), approved);
            OperatorAuthorization::Denied {
                message: concat(e.as_str(), ". Review and approve the new digest"),
                code: "operator_context_approval_mismatch".to_owned(),
            }
        },
        None => {
            if development_auto_approve {
                OperatorAuthorization::Approved("development_auto_approve".to_owned())
            } else if non_interactive || !terminals {
                OperatorAuthorization::NeedsApproval
            } else {
                OperatorAuthorization::AskOperator
            }
        },
    }
}

/// The operator's answer at the terminal: `y` or `yes`, in any case and
/// with surrounding whitespace, approves.
pub fn operator_answer(answer: &str) -> (r: OperatorAuthorization)
    ensures
        if eq_ignore_ascii_case_spec(trim_spec(answer@), "y"@) || eq_ignore_ascii_case_spec(
            trim_spec(answer@),
            "yes"@,
        ) {
            r matches OperatorAuthorization::Approved(m) && m@ == "interactive_terminal"@
        } else {
            r matches OperatorAuthorization::Denied { message, code } && message@
                == "operator context approval denied"@ && code@ == "operator_context_approval_denied"@
        },
{
    let t = trim(answer);
    if eq_ignore_ascii_case(t.as_str(), "y") || eq_ignore_ascii_case(t.as_str(), "yes") {
        OperatorAuthorization::Approved("interactive_terminal".to_owned())
    } else {
        OperatorAuthorization::Denied {
            message: "operator context approval denied".to_owned(),
            code: "operator_context_approval_denied".to_owned(),
        }
    }
}

/// Who approved: the development override, else the workspace user, else
/// the local operator.
pub fn approval_actor(mode: &str, user: Option<&str>) -> (r: String)
    ensures
        r@ == if mode@ == "development_auto_approve"@ {
            "local_development_override"@
        } else {
            match user {
                Some(u) => u@,
                None => "local_operator"@,
            }
        },
{
    if str_eq(mode, "development_auto_approve") {
        "local_development_override".to_owned()
    } else {
        match user {
            Some(u) => u.to_owned(),
            None => "local_operator".to_owned(),
        }
    }
}

/// The flag that approves a prepared digest.
pub fn operator_approval_flag(digest: &str) -> (r: String)
    ensures
        r@ == "--approve-operator-context "@ + digest@,
{
    concat("--approve-operator-context ", digest)
}

/// The JSON answer when operator approval is owed.
pub fn operator_approval_required(digest: &str) -> (r: JsonObject)
    ensures
        r.map() == Map::<Seq<char>, JsonModel>::empty().insert(
            "schema"@,
            JsonModel::Str("runx.operator_context_approval.v1"@),
        ).insert("status"@, JsonModel::Str("needs_operator_approval"@)).insert(
            "digest"@,
            JsonModel::Str(digest@),
        ).insert("approval_flag"@, JsonModel::Str("--approve-operator-context "@ + digest@)),
{
    let mut r = JsonObject::new();
    r.insert("schema".to_owned(), JsonValue::String("runx.operator_context_approval.v1".to_owned()));
    r.insert("status".to_owned(), JsonValue::String("needs_operator_approval".to_owned()));
    r.insert("digest".to_owned(), JsonValue::String(digest.to_owned()));
    r.insert("approval_flag".to_owned(), JsonValue::String(operator_approval_flag(digest)));
    r
}

/// The text answer when operator approval is owed.
pub fn operator_approval_required_text(digest: &str) -> (r: String)
    ensures
        r@ == "Approval required\nRerun the same command with:\n  --approve-operator-context "@ + digest@ + "\n"@,
{
    let a = concat("Approval required\nRerun the same command with:\n  --approve-operator-context ", digest);
    concat(a.as_str(), "\n")
}

/// The development override never approves a run where production
/// receipt signing is configured or where it was not asked for: an
/// approval in its mode comes only from a request with no signer set.
pub proof fn lemma_development_override_needs_request_and_no_signer(
    requested: bool,
    signing_configured: bool,
    approve_operator_context: Option<Seq<char>>,
    digest: Seq<char>,
)
    ensures
        (requested && !signing_configured) == development_override_applies(requested, signing_configured),
        approve_operator_context is None && development_override_applies(requested, signing_configured)
            ==> authorization_mode(approve_operator_context, digest, development_override_applies(requested, signing_configured))
            == Some("development_auto_approve"@),
        authorization_mode(approve_operator_context, digest, development_override_applies(requested, signing_configured))
            == Some("development_auto_approve"@) ==> requested && !signing_configured,
{
    reveal_strlit("explicit_digest");
    reveal_strlit("development_auto_approve");
    assert("explicit_digest"@ != "development_auto_approve"@) by {
        assert("explicit_digest"@.len() != "development_auto_approve"@.len());
    }
}

/// Whether the override applies.
pub open spec fn development_override_applies(requested: bool, signing_configured: bool) -> bool {
    requested && !signing_configured
}

/// The approval mode that `authorize_operator_context` settles on without
/// asking, if any.
pub open spec fn authorization_mode(
    approve_operator_context: Option<Seq<char>>,
    digest: Seq<char>,
    development_auto_approve: bool,
) -> Option<Seq<char>> {
    match approve_operator_context {
        Some(a) => if a == digest {
            Some("explicit_digest"@)
        } else {
            None
        },
        None => if development_auto_approve {
            Some("development_auto_approve"@)
        } else {
            None
        },
    }
}

/// Where a skill command stands: the outside step it waits on.
#[derive(Clone, Copy, Debug, PartialEq, Eq)]
pub enum RunStage {
    Configuring,
    Resolving,
    ResolvingCredential,
    ReadingInputs,
    StartingRuntime,
    Preparing,
    WritingContext,
    Admitting,
    Authorizing,
    AwaitingOperator,
    Approving,
    Running,
    Finished,
}

/// What preparing a run gave: whether it was blocked (and why, if said),
/// whether it needs operator approval, and the digest of the prepared
/// operator context.
pub struct PreparedRun {
    pub blocked: bool,
    pub blocked_reason: Option<String>,
    pub requires_approval: bool,
    pub digest: String,
}

/// What an outside step gave back.
pub enum RunEvent {
    /// Whether the development override was asked for (or why that could
    /// not be read), and whether a production receipt signer is set.
    OverrideRead { requested: Result<bool, String>, signing_configured: bool },
    SkillResolved(Result<(), String>),
    /// The runner's credential: `None` when it declares none, else whether
    /// it is ready.
    CredentialResolved(Result<Option<bool>, String>),
    InputsRead(Result<(), String>),
    RuntimeStarted(Result<(), String>),
    Prepared(Result<PreparedRun, String>),
    ContextWritten(Result<(), String>),
    Admitted(Result<(), String>),
    /// Whether standard input and standard error are both terminals.
    TerminalsChecked(bool),
    /// The line the operator answered, or why it could not be read.
    OperatorAnswered(Result<String, String>),
    Approved(Result<(), String>),
    RunFinished(Result<(), String>),
}

/// What the caller does next.
#[derive(Debug, PartialEq, Eq)]
pub enum RunAction {
    /// Report the failure and exit with status 1.
    Fail { message: String, code: String },
    /// Resolve the skill, in the environment `run_environment` gives.
    ResolveSkill,
    ResolveCredential,
    /// Show the inspection; the command is done.
    Inspect,
    /// Ask for the runner's credential; the command is done.
    AskForCredential,
    ReadInputs,
    StartRuntime,
    /// Run without operator context.
    RunSkill,
    Prepare,
    WriteContext,
    AdmitSafe,
    /// Check whether standard input and standard error are terminals.
    CheckTerminals,
    /// Ask the operator at the terminal and read one line.
    AskOperator,
    /// Record the approval, in this mode and by this actor.
    Approve { mode: String, actor: String },
    /// Answer that approval of this digest is owed; the command is done.
    AskForApproval { digest: String },
    RunPrepared,
    WriteOutput,
    /// The stage waits on another step: nothing changes.
    Unexpected,
}

/// A `runx skill` command in progress: what it was asked to do, what it
/// has settled, and the step it waits on.
pub struct SkillRun {
    pub action: SkillAction,
    pub skip_operator_context: bool,
    pub approve_operator_context: Option<String>,
    pub non_interactive: bool,
    pub skill_ref: String,
    pub user: Option<String>,
    pub override_requested: bool,
    pub signing_configured: bool,
    pub development_auto_approve: bool,
    pub gate: PreparedGate,
    pub blocked_message: String,
    pub digest: String,
    pub stage: RunStage,
}

pub open spec fn failed(a: RunAction, message: Seq<char>, code: Seq<char>) -> bool {
    a matches RunAction::Fail { message: m, code: c } && m@ == message && c@ == code
}

/// Who records an approval in `mode`.
pub open spec fn actor_spec(mode: Seq<char>, user: Option<String>) -> Seq<char> {
    if mode == "development_auto_approve"@ {
        "local_development_override"@
    } else {
        match user {
            Some(u) => u@,
            None => "local_operator"@,
        }
    }
}

pub open spec fn approves(a: RunAction, mode: Seq<char>, user: Option<String>) -> bool {
    a matches RunAction::Approve { mode: m, actor } && m@ == mode && actor@ == actor_spec(mode, user)
}

fn fail(message: &str, code: &str) -> (a: RunAction)
    ensures
        failed(a, message@, code@),
{
    RunAction::Fail { message: message.to_owned(), code: code.to_owned() }
}

fn approve(mode: &str, user: &Option<String>) -> (a: RunAction)
    ensures
        approves(a, mode@, *user),
{
    let actor = match user {
        Some(u) => approval_actor(mode, Some(u.as_str())),
        None => approval_actor(mode, None),
    };
    RunAction::Approve { mode: mode.to_owned(), actor }
}

/// The entry the first `key` entry of `s.push(e)` is.
proof fn lemma_lookup_push(s: Seq<(String, String)>, e: (String, String), k: Seq<char>)
    ensures
        env_lookup(s.push(e), k) == match env_lookup(s, k) {
            Some(v) => Some(v),
            None => if e.0@ == k {
                Some(e.1@)
            } else {
                None
            },
        },
    decreases s.len(),
{
    if s.len() > 0 {
        let p = s.push(e);
        assert(p[0] == s[0]);
        assert(p.drop_first() =~= s.drop_first().push(e));
        lemma_lookup_push(s.drop_first(), e, k);
        if s[0].0@ == k {
            assert(env_lookup(p, k) == Some(s[0].1@));
            assert(env_lookup(s, k) == Some(s[0].1@));
        } else {
            assert(env_lookup(p, k) == env_lookup(p.drop_first(), k));
            assert(env_lookup(s, k) == env_lookup(s.drop_first(), k));
        }
    } else {
        let p = s.push(e);
        assert(p[0] == e);
        assert(p.drop_first() =~= Seq::<(String, String)>::empty());
        assert(env_lookup(p.drop_first(), k) is None);
        assert(env_lookup(s, k) is None);
    }
}

/// Removes every entry named `key`.
pub fn env_remove(env: &mut Vec<(String, String)>, key: &str)
    ensures
        forall|k: Seq<char>| #[trigger] env_lookup(final(env)@, k) == if k == key@ {
            None
        } else {
            env_lookup(old(env)@, k)
        },
{
    let ghost old_env = env@;
    let mut out: Vec<(String, String)> = Vec::new();
    let mut i: usize = 0;
    while i < env.len()
        invariant
            i <= env@.len(),
            env@ == old_env,
            forall|k: Seq<char>| #[trigger] env_lookup(out@, k) == if k == key@ {
                None
            } else {
                env_lookup(old_env.subrange(0, i as int), k)
            },
        decreases env.len() - i,
    {
        let ghost before = out@;
        proof {
            assert(old_env.subrange(0, i + 1) =~= old_env.subrange(0, i as int).push(old_env[i as int]));
        }
        if !str_eq(env[i].0.as_str(), key) {
            out.push((env[i].0.clone(), env[i].1.clone()));
        }
        proof {
            assert forall|k: Seq<char>| #[trigger] env_lookup(out@, k) == if k == key@ {
                None
            } else {
                env_lookup(old_env.subrange(0, i + 1), k)
            } by {
                lemma_lookup_push(old_env.subrange(0, i as int), old_env[i as int], k);
                if out@.len() > before.len() {
                    lemma_lookup_push(before, out@[before.len() as int], k);
                    assert(out@ == before.push(out@[before.len() as int]));
                }
            }
        }
        i = i + 1;
    }
    assert(old_env.subrange(0, old_env.len() as int) =~= old_env);
    *env = out;
}

impl SkillRun {
    /// The command settles the development override exactly as the
    /// override rule says, once it has read it.
    pub open spec fn well_formed(&self) -> bool {
        self.development_auto_approve == development_override_applies(
            self.override_requested,
            self.signing_configured,
        )
    }

    /// A command that has settled nothing yet.
    pub fn new(
        action: SkillAction,
        skip_operator_context: bool,
        approve_operator_context: Option<String>,
        non_interactive: bool,
        skill_ref: String,
        user: Option<String>,
    ) -> (r: Self)
        ensures
            r.action == action,
            r.skip_operator_context == skip_operator_context,
            r.approve_operator_context == approve_operator_context,
            r.non_interactive == non_interactive,
            r.skill_ref == skill_ref,
            r.user == user,
            r.stage == RunStage::Configuring,
            r.well_formed(),
    {
        SkillRun {
            action,
            skip_operator_context,
            approve_operator_context,
            non_interactive,
            skill_ref,
            user,
            override_requested: false,
            signing_configured: false,
            development_auto_approve: false,
            gate: PreparedGate::Authorize,
            blocked_message: String::new(),
            digest: String::new(),
            stage: RunStage::Configuring,
        }
    }

    /// The environment the skill is resolved and run in: the development
    /// override's variable `name` is set to `true` when the override
    /// applies and removed otherwise; nothing else changes.
    pub fn run_environment(&self, env: &mut Vec<(String, String)>, name: &str)
        requires
            self.well_formed(),
            self.stage != RunStage::Configuring,
        ensures
            forall|k: Seq<char>| k != name@ ==> #[trigger] env_lookup(final(env)@, k) == env_lookup(old(env)@, k),
            env_lookup(final(env)@, name@) == if self.development_auto_approve {
                Some("true"@)
            } else {
                None
            },
            self.signing_configured ==> env_lookup(final(env)@, name@) is None,
    {
        if self.development_auto_approve {
            crate::sandbox_env::env_set(env, name, "true".to_owned());
            proof {
                reveal_strlit("true");
            }
        } else {
            env_remove(env, name);
        }
    }

    /// The next step of the command, given what the step it waited on gave
    /// back. Each failure ends the command with its own code: `config_error`,
    /// `skill_error` (resolving, starting the runtime, preparing, writing
    /// the operator context, running), `credential_error`, `input_error`,
    /// `operator_context_blocked`, `operator_context_admission_error`,
    /// `operator_context_approval_mismatch`, `operator_context_approval_denied`,
    /// or `operator_context_approval_error`. Approval is settled here: an
    /// approval flag must name the prepared digest; otherwise the
    /// development override approves when it applies; otherwise the
    /// operator is asked at a terminal, or approval is owed.
    pub fn step(&mut self, event: RunEvent) -> (a: RunAction)
        requires
            old(self).well_formed(),
        ensures
            final(self).well_formed(),
            final(self).action == old(self).action,
            final(self).skip_operator_context == old(self).skip_operator_context,
            final(self).approve_operator_context == old(self).approve_operator_context,
            final(self).non_interactive == old(self).non_interactive,
            final(self).skill_ref == old(self).skill_ref,
            final(self).user == old(self).user,
            a is Fail ==> final(self).stage == RunStage::Finished,
            a is Unexpected ==> final(self).stage == old(self).stage,
            old(self).stage != RunStage::Configuring ==> final(self).development_auto_approve
                == old(self).development_auto_approve && final(self).signing_configured
                == old(self).signing_configured && final(self).override_requested
                == old(self).override_requested,
            // The development override approves only a run that asked for it,
            // has no production signer and supplied no approval flag.
            (a matches RunAction::Approve { mode, .. } && mode@ == "development_auto_approve"@)
                ==> final(self).override_requested && !final(self).signing_configured
                && final(self).approve_operator_context is None,
            match (old(self).stage, event) {
                (RunStage::Configuring, RunEvent::OverrideRead { requested, signing_configured }) =>
                    match requested {
                    Err(e) => failed(a, e@, "config_error"@),
                    Ok(asked) => a is ResolveSkill && final(self).stage == RunStage::Resolving
                        && final(self).override_requested == asked && final(self).signing_configured
                        == signing_configured,
                },
                (RunStage::Resolving, RunEvent::SkillResolved(res)) => match res {
                    Err(e) => failed(a, e@, "skill_error"@),
                    Ok(_) => a is ResolveCredential && final(self).stage
                        == RunStage::ResolvingCredential,
                },
                (RunStage::ResolvingCredential, RunEvent::CredentialResolved(res)) => match res {
                    Err(e) => failed(a, e@, "credential_error"@),
                    Ok(ready) => if old(self).action == SkillAction::Inspect {
                        a is Inspect && final(self).stage == RunStage::Finished
                    } else if ready == Some(false) {
                        a is AskForCredential && final(self).stage == RunStage::Finished
                    } else {
                        a is ReadInputs && final(self).stage == RunStage::ReadingInputs
                    },
                },
                (RunStage::ReadingInputs, RunEvent::InputsRead(res)) => match res {
                    Err(e) => failed(a, e@, "input_error"@),
                    Ok(_) => a is StartRuntime && final(self).stage == RunStage::StartingRuntime,
                },
                (RunStage::StartingRuntime, RunEvent::RuntimeStarted(res)) => match res {
                    Err(e) => failed(a, "failed to initialize runtime effects: "@ + e@, "skill_error"@),
                    Ok(_) => if old(self).skip_operator_context {
                        a is RunSkill && final(self).stage == RunStage::Running
                    } else {
                        a is Prepare && final(self).stage == RunStage::Preparing
                    },
                },
                (RunStage::Preparing, RunEvent::Prepared(res)) => match res {
                    Err(e) => failed(a, e@, "skill_error"@),
                    Ok(p) => a is WriteContext && final(self).stage == RunStage::WritingContext
                        && final(self).digest@ == p.digest@ && final(self).gate == (if p.blocked {
                        PreparedGate::Blocked
                    } else if !p.requires_approval && old(self).approve_operator_context is None {
                        PreparedGate::AdmitSafe
                    } else {
                        PreparedGate::Authorize
                    }) && final(self).blocked_message@ == match p.blocked_reason {
                        Some(m) => m@,
                        None => "operator context preparation blocked"@,
                    },
                },
                (RunStage::WritingContext, RunEvent::ContextWritten(res)) => match res {
                    Err(e) => failed(a, e@, "skill_error"@),
                    Ok(_) => match old(self).gate {
                        PreparedGate::Blocked => failed(
                            a,
                            old(self).blocked_message@,
                            "operator_context_blocked"@,
                        ),
                        PreparedGate::AdmitSafe => a is AdmitSafe && final(self).stage
                            == RunStage::Admitting,
                        PreparedGate::Authorize => a is CheckTerminals && final(self).stage
                            == RunStage::Authorizing,
                    },
                },
                (RunStage::Admitting, RunEvent::Admitted(res)) => match res {
                    Err(e) => failed(a, e@, "operator_context_admission_error"@),
                    Ok(_) => a is RunPrepared && final(self).stage == RunStage::Running,
                },
                (RunStage::Authorizing, RunEvent::TerminalsChecked(terminals)) => match old(
                    self,
                ).approve_operator_context {
                    Some(x) => if x@ == old(self).digest@ {
                        approves(a, "explicit_digest"@, old(self).user) && final(self).stage
                            == RunStage::Approving
                    } else {
                        failed(
                            a,
                            stale_message(old(self).skill_ref@, old(self).digest@, x@),
                            "operator_context_approval_mismatch"@,
                        )
                    },
                    None => if old(self).development_auto_approve {
                        approves(a, "development_auto_approve"@, old(self).user) && final(self).stage
                            == RunStage::Approving
                    } else if old(self).non_interactive || !terminals {
                        a matches RunAction::AskForApproval { digest } && digest@ == old(self).digest@
                            && final(self).stage == RunStage::Finished
                    } else {
                        a is AskOperator && final(self).stage == RunStage::AwaitingOperator
                    },
                },
                (RunStage::AwaitingOperator, RunEvent::OperatorAnswered(res)) => match res {
                    Err(e) => failed(
                        a,
                        "failed to read operator context approval: "@ + e@,
                        "operator_context_approval_error"@,
                    ),
                    Ok(answer) => if eq_ignore_ascii_case_spec(trim_spec(answer@), "y"@)
                        || eq_ignore_ascii_case_spec(trim_spec(answer@), "yes"@) {
                        approves(a, "interactive_terminal"@, old(self).user) && final(self).stage
                            == RunStage::Approving
                    } else {
                        failed(
                            a,
                            "operator context approval denied"@,
                            "operator_context_approval_denied"@,
                        )
                    },
                },
                (RunStage::Approving, RunEvent::Approved(res)) => match res {
                    Err(e) => failed(a, e@, "operator_context_approval_error"@),
                    Ok(_) => a is RunPrepared && final(self).stage == RunStage::Running,
                },
                (RunStage::Running, RunEvent::RunFinished(res)) => match res {
                    Err(e) => failed(a, e@, "skill_error"@),
                    Ok(_) => a is WriteOutput && final(self).stage == RunStage::Finished,
                },
                _ => a is Unexpected,
            },
    {
        proof {
            reveal_strlit("explicit_digest");
            reveal_strlit("development_auto_approve");
            reveal_strlit("interactive_terminal");
            assert("explicit_digest"@ != "development_auto_approve"@) by {
                assert("explicit_digest"@.len() != "development_auto_approve"@.len());
            }
            assert("interactive_terminal"@ != "development_auto_approve"@) by {
                assert("interactive_terminal"@.len() != "development_auto_approve"@.len());
            }
        }
        let stage = self.stage;
        let a = match (stage, event) {
            (RunStage::Configuring, RunEvent::OverrideRead { requested, signing_configured }) => {
                match requested {
                    Err(e) => fail(e.as_str(), "config_error"),
                    Ok(asked) => {
                        self.override_requested = asked;
                        self.signing_configured = signing_configured;
                        self.development_auto_approve = development_auto_approve(
                            asked,
                            signing_configured,
                        );
                        self.stage = RunStage::Resolving;
                        RunAction::ResolveSkill
                    },
                }
            },
            (RunStage::Resolving, RunEvent::SkillResolved(res)) => match res {
                Err(e) => fail(e.as_str(), "skill_error"),
                Ok(()) => {
                    self.stage = RunStage::ResolvingCredential;
                    RunAction::ResolveCredential
                },
            },
            (RunStage::ResolvingCredential, RunEvent::CredentialResolved(res)) => match res {
                Err(e) => fail(e.as_str(), "credential_error"),
                Ok(ready) => match skill_gate(self.action, ready) {
                    SkillGate::Inspect => {
                        self.stage = RunStage::Finished;
                        RunAction::Inspect
                    },
                    SkillGate::NeedsCredential => {
                        self.stage = RunStage::Finished;
                        RunAction::AskForCredential
                    },
                    SkillGate::Run => {
                        self.stage = RunStage::ReadingInputs;
                        RunAction::ReadInputs
                    },
                },
            },
            (RunStage::ReadingInputs, RunEvent::InputsRead(res)) => match res {
                Err(e) => fail(e.as_str(), "input_error"),
                Ok(()) => {
                    self.stage = RunStage::StartingRuntime;
                    RunAction::StartRuntime
                },
            },
            (RunStage::StartingRuntime, RunEvent::RuntimeStarted(res)) => match res {
                Err(e) => fail(
                    concat("failed to initialize runtime effects: ", e.as_str()).as_str(),
                    "skill_error",
                ),
                Ok(()) => if self.skip_operator_context {
                    self.stage = RunStage::Running;
                    RunAction::RunSkill
                } else {
                    self.stage = RunStage::Preparing;
                    RunAction::Prepare
                },
            },
            (RunStage::Preparing, RunEvent::Prepared(res)) => match res {
                Err(e) => fail(e.as_str(), "skill_error"),
                Ok(p) => {
                    self.gate = prepared_gate(
                        p.blocked,
                        p.requires_approval,
                        self.approve_operator_context.is_some(),
                    );
                    self.blocked_message = match p.blocked_reason {
                        Some(m) => m,
                        None => "operator context preparation blocked".to_owned(),
                    };
                    self.digest = p.digest;
                    self.stage = RunStage::WritingContext;
                    RunAction::WriteContext
                },
            },
            (RunStage::WritingContext, RunEvent::ContextWritten(res)) => match res {
                Err(e) => fail(e.as_str(), "skill_error"),
                Ok(()) => match self.gate {
                    PreparedGate::Blocked => fail(
                        self.blocked_message.as_str(),
                        "operator_context_blocked",
                    ),
                    PreparedGate::AdmitSafe => {
                        self.stage = RunStage::Admitting;
                        RunAction::AdmitSafe
                    },
                    PreparedGate::Authorize => {
                        self.stage = RunStage::Authorizing;
                        RunAction::CheckTerminals
                    },
                },
            },
            (RunStage::Admitting, RunEvent::Admitted(res)) => match res {
                Err(e) => fail(e.as_str(), "operator_context_admission_error"),
                Ok(()) => {
                    self.stage = RunStage::Running;
                    RunAction::RunPrepared
                },
            },
            (RunStage::Authorizing, RunEvent::TerminalsChecked(terminals)) => {
                let approved = match &self.approve_operator_context {
                    Some(x) => Some(x.as_str()),
                    None => None,
                };
                match authorize_operator_context(
                    approved,
                    self.digest.as_str(),
                    self.skill_ref.as_str(),
                    self.development_auto_approve,
                    self.non_interactive,
                    terminals,
                ) {
                    OperatorAuthorization::Approved(m) => {
                        self.stage = RunStage::Approving;
                        approve(m.as_str(), &self.user)
                    },
                    OperatorAuthorization::NeedsApproval => {
                        self.stage = RunStage::Finished;
                        RunAction::AskForApproval { digest: self.digest.clone() }
                    },
                    OperatorAuthorization::AskOperator => {
                        self.stage = RunStage::AwaitingOperator;
                        RunAction::AskOperator
                    },
                    OperatorAuthorization::Denied { message, code } => RunAction::Fail {
                        message,
                        code,
                    },
                }
            },
            (RunStage::AwaitingOperator, RunEvent::OperatorAnswered(res)) => match res {
                Err(e) => fail(
                    concat("failed to read operator context approval: ", e.as_str()).as_str(),
                    "operator_context_approval_error",
                ),
                Ok(answer) => match operator_answer(answer.as_str()) {
                    OperatorAuthorization::Approved(m) => {
                        self.stage = RunStage::Approving;
                        approve(m.as_str(), &self.user)
                    },
                    OperatorAuthorization::Denied { message, code } => RunAction::Fail {
                        message,
                        code,
                    },
                    _ => RunAction::Unexpected,
                },
            },
            (RunStage::Approving, RunEvent::Approved(res)) => match res {
                Err(e) => fail(e.as_str(), "operator_context_approval_error"),
                Ok(()) => {
                    self.stage = RunStage::Running;
                    RunAction::RunPrepared
                },
            },
            (RunStage::Running, RunEvent::RunFinished(res)) => match res {
                Err(e) => fail(e.as_str(), "skill_error"),
                Ok(()) => {
                    self.stage = RunStage::Finished;
                    RunAction::WriteOutput
                },
            },
            _ => RunAction::Unexpected,
        };
        match &a {
            RunAction::Fail { .. } => {
                self.stage = RunStage::Finished;
            },
            _ => {},
        }
        a
    }
}

/// With a production receipt signer configured, a command that has read
/// its configuration never holds the development override, and so never
/// sets its variable in the run's environment.
pub proof fn lemma_signer_keeps_the_override_off(run: SkillRun)
    requires
        run.well_formed(),
        run.stage != RunStage::Configuring,
        run.signing_configured,
    ensures
        !run.development_auto_approve,
{
}

} // verus!
