use runx::agent_run::{
    agent_answer_source, agent_run_id, agent_run_identity_digest, continuation_run_id,
    derived_agent_run_id, eq_ignore_ascii_case, managed_agent_attempt, paused_agent_checkpoint, AgentAdapterSourceType,
    AgentAnswerSource,
};
use runx::json::{JsonNumber, JsonObject, JsonValue};
use runx::execution_closure::SourceKind;

#[test]
fn seeded_answers_come_before_the_resume_file() {
    assert_eq!(agent_answer_source(true, true), AgentAnswerSource::Seeded);
    assert_eq!(agent_answer_source(false, true), AgentAnswerSource::AnswersFile);
    assert_eq!(agent_answer_source(false, false), AgentAnswerSource::Inline);
}

#[test]
fn continuations_name_both_run_and_answers() {
    assert_eq!(continuation_run_id(Some("run_1"), true), Ok(Some("run_1".to_owned())));
    assert_eq!(continuation_run_id(None, false), Ok(None));
    let message = Err("skill continuation requires both run_id and answers".to_owned());
    assert_eq!(continuation_run_id(Some("run_1"), false), message);
    assert_eq!(continuation_run_id(None, true), message);
}

#[test]
fn fresh_runs_take_sixteen_digest_digits() {
    let digest = format!("sha256:{}", "0123456789abcdef".repeat(4));
    assert_eq!(
        derived_agent_run_id("agent_task-intake", &digest),
        Ok("run_agent_task-intake_0123456789abcdef".to_owned())
    );
    let failure = Err("failed to derive agent run identity digest".to_owned());
    assert_eq!(derived_agent_run_id("x", "md5:0123456789abcdef0123"), failure);
    assert_eq!(derived_agent_run_id("x", "sha256:0123"), failure);
    // No character boundary at the sixteenth byte.
    assert_eq!(derived_agent_run_id("x", &format!("sha256:{}é{}", "a".repeat(15), "b".repeat(8))), failure);
}

#[test]
fn managed_agent_needs_consent_agent_source_and_anthropic() {
    assert_eq!(
        managed_agent_attempt(Some(3), SourceKind::Agent, Some("Anthropic")),
        Some((3, AgentAdapterSourceType::Agent))
    );
    assert_eq!(
        managed_agent_attempt(Some(3), SourceKind::AgentStep, Some("anthropic")),
        Some((3, AgentAdapterSourceType::AgentStep))
    );
    assert_eq!(managed_agent_attempt(None, SourceKind::Agent, Some("anthropic")), None);
    assert_eq!(managed_agent_attempt(Some(3), SourceKind::Graph, Some("anthropic")), None);
    assert_eq!(managed_agent_attempt(Some(3), SourceKind::Agent, Some("openai")), None);
    assert_eq!(managed_agent_attempt(Some(3), SourceKind::Agent, None), None);
    assert!(eq_ignore_ascii_case("RunX", "runx"));
    assert!(!eq_ignore_ascii_case("runx", "run"));
}

fn sha256_hex(bytes: &[u8]) -> String {
    let digest = <sha2::Sha256 as sha2::Digest>::digest(bytes);
    digest.iter().map(|b| format!("{b:02x}")).collect()
}

#[test]
fn a_fresh_run_id_hashes_the_run_identity() {
    let mut inputs = JsonObject::new();
    inputs.insert("q".to_owned(), JsonValue::String("hi".to_owned()));
    inputs.insert("n".to_owned(), JsonValue::Number(JsonNumber::U64(2)));
    let identity = "{\"inputs\":{\"n\":2,\"q\":\"hi\"},\"request_id\":\"req 1\",\"runner\":\"default\",\"schema\":\"runx.agent_run_identity.v1\",\"skill\":\"echo\"}";
    let expected = format!("sha256:{}", sha256_hex(identity.as_bytes()));
    assert_eq!(agent_run_identity_digest("echo", "default", "req 1", &inputs), Some(expected.clone()));
    assert_eq!(
        agent_run_id(None, false, Some("echo"), "default", "req 1", "req-1", &inputs),
        Some(Ok(format!("run_req-1_{}", &expected[7..23])))
    );
    let by_runner = "{\"inputs\":{\"n\":2,\"q\":\"hi\"},\"request_id\":\"req 1\",\"runner\":\"default\",\"schema\":\"runx.agent_run_identity.v1\",\"skill\":\"default\"}";
    let digest = sha256_hex(by_runner.as_bytes());
    assert_eq!(
        agent_run_id(None, false, None, "default", "req 1", "req-1", &inputs),
        Some(Ok(format!("run_req-1_{}", &digest[..16])))
    );
    assert_eq!(
        agent_run_id(Some("run_7"), true, None, "default", "req 1", "req-1", &inputs),
        Some(Ok("run_7".to_owned()))
    );
    assert_eq!(
        agent_run_id(Some("run_7"), false, None, "default", "req 1", "req-1", &inputs),
        Some(Err("skill continuation requires both run_id and answers".to_owned()))
    );
}

#[test]
fn a_paused_agent_run_checkpoints_its_one_request() {
    let c = paused_agent_checkpoint(
        "run_intake_0123456789abcdef",
        "agent_task-intake",
        None,
        "intake",
        "2025-01-01T00:00:00Z",
        "skills/intake",
        Some("work"),
        "sha256:pkg",
        None,
    );
    assert_eq!(c.id, "run_intake_0123456789abcdef");
    assert_eq!(c.name, "intake");
    assert_eq!(c.kind, "agent");
    assert_eq!(c.step_ids, vec!["agent_task-intake".to_owned()]);
    assert_eq!(c.step_labels, vec!["intake".to_owned()]);
    assert_eq!(c.selected_runner.as_deref(), Some("intake"));
    assert_eq!(c.credential_profile.as_deref(), Some("work"));
    assert_eq!(c.package_digest.as_deref(), Some("sha256:pkg"));
    assert_eq!(c.execution_closure_digest, None);
    let named = paused_agent_checkpoint("r", "q", Some("echo"), "main", "t", "s", None, "d", Some("sha256:c"));
    assert_eq!(named.name, "echo");
    assert_eq!(named.execution_closure_digest.as_deref(), Some("sha256:c"));
}
