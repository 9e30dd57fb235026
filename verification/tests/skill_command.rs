use runx::json::JsonValue;
use runx::skill_command::{
    approval_actor, authorize_operator_context, development_auto_approve, operator_answer,
    operator_approval_flag, operator_approval_required, operator_approval_required_text,
    prepared_gate, production_receipt_signing_configured, skill_gate, OperatorAuthorization,
    PreparedGate, PreparedRun, RunAction, RunEvent, RunStage, SkillAction, SkillGate, SkillRun,
};

#[test]
fn signing_counts_only_non_blank_values() {
    assert!(!production_receipt_signing_configured(&vec![None, Some("  ".to_owned()), None]));
    assert!(production_receipt_signing_configured(&vec![None, None, Some("ed25519".to_owned())]));
    assert!(development_auto_approve(true, false));
    assert!(!development_auto_approve(true, true));
    assert!(!development_auto_approve(false, false));
}

#[test]
fn gates_before_and_after_preparation() {
    assert_eq!(skill_gate(SkillAction::Inspect, Some(false)), SkillGate::Inspect);
    assert_eq!(skill_gate(SkillAction::Run, Some(false)), SkillGate::NeedsCredential);
    assert_eq!(skill_gate(SkillAction::Run, Some(true)), SkillGate::Run);
    assert_eq!(skill_gate(SkillAction::Run, None), SkillGate::Run);
    assert_eq!(prepared_gate(true, false, false), PreparedGate::Blocked);
    assert_eq!(prepared_gate(false, false, false), PreparedGate::AdmitSafe);
    assert_eq!(prepared_gate(false, true, false), PreparedGate::Authorize);
    assert_eq!(prepared_gate(false, false, true), PreparedGate::Authorize);
}

#[test]
fn operator_approval_is_settled_in_order() {
    assert_eq!(
        authorize_operator_context(Some("sha256:a"), "sha256:a", "./echo", false, true, false),
        OperatorAuthorization::Approved("explicit_digest".to_owned())
    );
    assert_eq!(
        authorize_operator_context(Some("sha256:b"), "sha256:a", "./echo", true, false, true),
        OperatorAuthorization::Denied {
            message: "operator context approval is stale for ./echo: prepared sha256:a; supplied sha256:b. Review and approve the new digest".to_owned(),
            code: "operator_context_approval_mismatch".to_owned(),
        }
    );
    assert_eq!(
        authorize_operator_context(None, "sha256:a", "./echo", true, true, false),
        OperatorAuthorization::Approved("development_auto_approve".to_owned())
    );
    assert_eq!(
        authorize_operator_context(None, "sha256:a", "./echo", false, true, true),
        OperatorAuthorization::NeedsApproval
    );
    assert_eq!(
        authorize_operator_context(None, "sha256:a", "./echo", false, false, true),
        OperatorAuthorization::AskOperator
    );
    assert_eq!(operator_answer(" YES\n"), OperatorAuthorization::Approved("interactive_terminal".to_owned()));
    assert_eq!(operator_answer("y"), OperatorAuthorization::Approved("interactive_terminal".to_owned()));
    assert_eq!(
        operator_answer("no"),
        OperatorAuthorization::Denied {
            message: "operator context approval denied".to_owned(),
            code: "operator_context_approval_denied".to_owned(),
        }
    );
    assert_eq!(approval_actor("development_auto_approve", Some("ann")), "local_development_override");
    assert_eq!(approval_actor("explicit_digest", Some("ann")), "ann");
    assert_eq!(approval_actor("explicit_digest", None), "local_operator");
}

#[test]
fn owed_approval_names_the_flag() {
    assert_eq!(operator_approval_flag("sha256:a"), "--approve-operator-context sha256:a");
    assert_eq!(
        operator_approval_required_text("sha256:a"),
        "Approval required\nRerun the same command with:\n  --approve-operator-context sha256:a\n"
    );
    let object = operator_approval_required("sha256:a");
    assert_eq!(object.len(), 4);
    assert_eq!(
        object.get("approval_flag"),
        Some(&JsonValue::String("--approve-operator-context sha256:a".to_owned()))
    );
    assert_eq!(object.get("status"), Some(&JsonValue::String("needs_operator_approval".to_owned())));
}

fn prepared(blocked: bool, reason: Option<&str>, requires_approval: bool) -> RunEvent {
    RunEvent::Prepared(Ok(PreparedRun {
        blocked,
        blocked_reason: reason.map(|r| r.to_owned()),
        requires_approval,
        digest: "sha256:abc".to_owned(),
    }))
}

fn fail(message: &str, code: &str) -> RunAction {
    RunAction::Fail { message: message.to_owned(), code: code.to_owned() }
}

fn new_run(action: SkillAction, skip: bool, approve: Option<&str>, non_interactive: bool) -> SkillRun {
    SkillRun::new(
        action,
        skip,
        approve.map(|a| a.to_owned()),
        non_interactive,
        "skills/echo".to_owned(),
        Some("ada".to_owned()),
    )
}

/// Drives a run up to the approval decision.
fn at_authorization(requested: bool, signing: bool, approve: Option<&str>, non_interactive: bool) -> SkillRun {
    let mut run = new_run(SkillAction::Run, false, approve, non_interactive);
    run.step(RunEvent::OverrideRead { requested: Ok(requested), signing_configured: signing });
    run.step(RunEvent::SkillResolved(Ok(())));
    run.step(RunEvent::CredentialResolved(Ok(None)));
    run.step(RunEvent::InputsRead(Ok(())));
    run.step(RunEvent::RuntimeStarted(Ok(())));
    run.step(prepared(false, None, true));
    assert_eq!(run.step(RunEvent::ContextWritten(Ok(()))), RunAction::CheckTerminals);
    run
}

#[test]
fn a_run_goes_from_resolution_through_approval_to_output() {
    let mut run = new_run(SkillAction::Run, false, None, false);
    assert_eq!(
        run.step(RunEvent::OverrideRead { requested: Ok(true), signing_configured: false }),
        RunAction::ResolveSkill
    );
    assert!(run.development_auto_approve);
    assert_eq!(run.step(RunEvent::SkillResolved(Ok(()))), RunAction::ResolveCredential);
    assert_eq!(run.step(RunEvent::CredentialResolved(Ok(Some(true)))), RunAction::ReadInputs);
    assert_eq!(run.step(RunEvent::InputsRead(Ok(()))), RunAction::StartRuntime);
    assert_eq!(run.step(RunEvent::RuntimeStarted(Ok(()))), RunAction::Prepare);
    assert_eq!(run.step(prepared(false, None, true)), RunAction::WriteContext);
    assert_eq!(run.step(RunEvent::ContextWritten(Ok(()))), RunAction::CheckTerminals);
    assert_eq!(
        run.step(RunEvent::TerminalsChecked(false)),
        RunAction::Approve {
            mode: "development_auto_approve".to_owned(),
            actor: "local_development_override".to_owned(),
        }
    );
    assert_eq!(run.step(RunEvent::Approved(Ok(()))), RunAction::RunPrepared);
    assert_eq!(run.step(RunEvent::RunFinished(Ok(()))), RunAction::WriteOutput);
    assert_eq!(run.stage, RunStage::Finished);
}

#[test]
fn a_production_signer_keeps_the_override_out_of_the_run() {
    // Asked for, but a signer is configured: the override does not apply,
    // its variable leaves the environment, and approval is owed.
    let mut run = at_authorization(true, true, None, true);
    assert!(!run.development_auto_approve);
    let mut env = vec![
        ("RUNX_DEVELOPMENT_AUTO_APPROVE".to_owned(), "true".to_owned()),
        ("PATH".to_owned(), "/bin".to_owned()),
    ];
    run.run_environment(&mut env, "RUNX_DEVELOPMENT_AUTO_APPROVE");
    assert_eq!(env, vec![("PATH".to_owned(), "/bin".to_owned())]);
    assert_eq!(
        run.step(RunEvent::TerminalsChecked(true)),
        RunAction::AskForApproval { digest: "sha256:abc".to_owned() }
    );
    assert_eq!(run.stage, RunStage::Finished);

    let allowed = at_authorization(true, false, None, true);
    let mut env = vec![("PATH".to_owned(), "/bin".to_owned())];
    allowed.run_environment(&mut env, "RUNX_DEVELOPMENT_AUTO_APPROVE");
    assert_eq!(
        env,
        vec![
            ("PATH".to_owned(), "/bin".to_owned()),
            ("RUNX_DEVELOPMENT_AUTO_APPROVE".to_owned(), "true".to_owned()),
        ]
    );

    let mut failing = new_run(SkillAction::Run, false, None, false);
    assert_eq!(
        failing.step(RunEvent::OverrideRead { requested: Err("bad config".to_owned()), signing_configured: false }),
        fail("bad config", "config_error")
    );
    assert_eq!(failing.stage, RunStage::Finished);
}

#[test]
fn an_approval_flag_must_name_the_prepared_digest() {
    let mut exact = at_authorization(true, false, Some("sha256:abc"), true);
    assert_eq!(
        exact.step(RunEvent::TerminalsChecked(false)),
        RunAction::Approve { mode: "explicit_digest".to_owned(), actor: "ada".to_owned() }
    );
    let mut stale = at_authorization(false, false, Some("sha256:old"), true);
    assert_eq!(
        stale.step(RunEvent::TerminalsChecked(true)),
        fail(
            "operator context approval is stale for skills/echo: prepared sha256:abc; supplied sha256:old. Review and approve the new digest",
            "operator_context_approval_mismatch"
        )
    );
}

#[test]
fn the_operator_is_asked_only_at_a_terminal() {
    let mut run = at_authorization(false, false, None, false);
    assert_eq!(run.step(RunEvent::TerminalsChecked(true)), RunAction::AskOperator);
    assert_eq!(
        run.step(RunEvent::OperatorAnswered(Ok(" Yes\n".to_owned()))),
        RunAction::Approve { mode: "interactive_terminal".to_owned(), actor: "ada".to_owned() }
    );
    let mut no = at_authorization(false, false, None, false);
    no.step(RunEvent::TerminalsChecked(true));
    assert_eq!(
        no.step(RunEvent::OperatorAnswered(Ok("n".to_owned()))),
        fail("operator context approval denied", "operator_context_approval_denied")
    );
    let mut broken = at_authorization(false, false, None, false);
    broken.step(RunEvent::TerminalsChecked(true));
    assert_eq!(
        broken.step(RunEvent::OperatorAnswered(Err("closed".to_owned()))),
        fail("failed to read operator context approval: closed", "operator_context_approval_error")
    );
    let mut piped = at_authorization(false, false, None, false);
    assert_eq!(
        piped.step(RunEvent::TerminalsChecked(false)),
        RunAction::AskForApproval { digest: "sha256:abc".to_owned() }
    );
}

#[test]
fn inspection_and_missing_credentials_end_the_command() {
    let mut inspect = new_run(SkillAction::Inspect, false, None, false);
    inspect.step(RunEvent::OverrideRead { requested: Ok(false), signing_configured: false });
    inspect.step(RunEvent::SkillResolved(Ok(())));
    assert_eq!(inspect.step(RunEvent::CredentialResolved(Ok(Some(false)))), RunAction::Inspect);
    let mut run = new_run(SkillAction::Run, false, None, false);
    run.step(RunEvent::OverrideRead { requested: Ok(false), signing_configured: false });
    assert_eq!(run.step(RunEvent::SkillResolved(Err("no such skill".to_owned()))), fail("no such skill", "skill_error"));
    let mut needs = new_run(SkillAction::Run, false, None, false);
    needs.step(RunEvent::OverrideRead { requested: Ok(false), signing_configured: false });
    needs.step(RunEvent::SkillResolved(Ok(())));
    assert_eq!(needs.step(RunEvent::CredentialResolved(Ok(Some(false)))), RunAction::AskForCredential);
}

#[test]
fn each_later_failure_carries_its_own_code() {
    let started = |skip: bool| {
        let mut run = new_run(SkillAction::Run, skip, None, false);
        run.step(RunEvent::OverrideRead { requested: Ok(false), signing_configured: false });
        run.step(RunEvent::SkillResolved(Ok(())));
        run.step(RunEvent::CredentialResolved(Ok(None)));
        run.step(RunEvent::InputsRead(Ok(())));
        run
    };
    let mut runtime = started(false);
    assert_eq!(
        runtime.step(RunEvent::RuntimeStarted(Err("no effects".to_owned()))),
        fail("failed to initialize runtime effects: no effects", "skill_error")
    );
    let mut direct = started(true);
    assert_eq!(direct.step(RunEvent::RuntimeStarted(Ok(()))), RunAction::RunSkill);
    assert_eq!(direct.step(RunEvent::RunFinished(Err("boom".to_owned()))), fail("boom", "skill_error"));

    let mut blocked = started(false);
    blocked.step(RunEvent::RuntimeStarted(Ok(())));
    blocked.step(prepared(true, None, false));
    assert_eq!(
        blocked.step(RunEvent::ContextWritten(Ok(()))),
        fail("operator context preparation blocked", "operator_context_blocked")
    );

    let mut safe = started(false);
    safe.step(RunEvent::RuntimeStarted(Ok(())));
    safe.step(prepared(false, None, false));
    assert_eq!(safe.step(RunEvent::ContextWritten(Ok(()))), RunAction::AdmitSafe);
    assert_eq!(
        safe.step(RunEvent::Admitted(Err("unsafe".to_owned()))),
        fail("unsafe", "operator_context_admission_error")
    );
}

#[test]
fn an_event_the_stage_does_not_wait_on_changes_nothing() {
    let mut run = new_run(SkillAction::Run, false, None, false);
    assert_eq!(run.step(RunEvent::InputsRead(Ok(()))), RunAction::Unexpected);
    assert_eq!(run.stage, RunStage::Configuring);
}
