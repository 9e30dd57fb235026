use runx::json::{JsonNumber, JsonObject, JsonValue};
use runx::replay::{assert_replayed_answers, json_contains, json_subset_matches, HarnessReplayError};

fn object(pairs: Vec<(&str, JsonValue)>) -> JsonObject {
    let mut object = JsonObject::new();
    for (key, value) in pairs {
        object.insert(key.to_owned(), value);
    }
    object
}

fn send_plan(decision: &str) -> JsonValue {
    JsonValue::Object(object(vec![(
        "send_plan",
        JsonValue::Object(object(vec![(
            "decision",
            JsonValue::String(decision.to_owned()),
        )])),
    )]))
}

#[test]
fn supplied_caller_answers_are_exact_replay_oracles() {
    let answer = send_plan("ready");
    let answers = object(vec![("agent_task.send-as.output", answer.clone())]);

    assert!(assert_replayed_answers(&answers, &vec![answer]).is_ok());
}

#[test]
fn unused_or_changed_caller_answer_fails_with_request_path() {
    let answers = object(vec![("agent_task.send-as.output", send_plan("ready"))]);

    let result = assert_replayed_answers(&answers, &vec![send_plan("needs_input")]);

    assert!(matches!(
        result,
        Err(HarnessReplayError::Mismatch { field, .. })
            if field == "caller.answers.agent_task.send-as.output.replayed"
    ));
}

#[test]
fn fixtures_without_answers_have_no_replay_obligation() {
    assert!(assert_replayed_answers(&JsonObject::new(), &vec![]).is_ok());
}

#[test]
fn integer_representations_compare_as_json_values() {
    let answers = object(vec![(
        "agent_task.invoice.output",
        JsonValue::Number(JsonNumber::I64(1840)),
    )]);

    assert!(
        assert_replayed_answers(&answers, &vec![JsonValue::Number(JsonNumber::U64(1840))]).is_ok()
    );
}

#[test]
fn nested_typed_packet_may_enrich_a_replayed_answer() {
    let answer = send_plan("ready");
    let answers = object(vec![("agent_task.send-as.output", answer)]);
    let observed = JsonValue::Object(object(vec![(
        "send_plan_packet",
        JsonValue::Object(object(vec![(
            "data",
            JsonValue::Object(object(vec![
                (
                    "send_plan",
                    JsonValue::Object(object(vec![
                        ("decision", JsonValue::String("ready".to_owned())),
                        ("approval", JsonValue::String("required".to_owned())),
                    ])),
                ),
                ("packet", JsonValue::String("runx.send.plan.v1".to_owned())),
            ])),
        )])),
    )]));

    assert!(assert_replayed_answers(&answers, &vec![observed]).is_ok());
}

#[test]
fn mismatch_carries_the_answer_and_every_observed_output() {
    let answers = object(vec![("a", JsonValue::Bool(true))]);
    let observed = vec![JsonValue::Bool(false), JsonValue::Null];
    assert_eq!(
        assert_replayed_answers(&answers, &observed),
        Err(HarnessReplayError::Mismatch {
            field: "caller.answers.a.replayed".to_owned(),
            expected: JsonValue::Bool(true),
            actual: JsonValue::Array(observed.clone()),
        })
    );
}

#[test]
fn subset_match_requires_every_expected_field() {
    let expected = JsonValue::Object(object(vec![("a", JsonValue::Bool(true))]));
    let richer = JsonValue::Object(object(vec![
        ("a", JsonValue::Bool(true)),
        ("b", JsonValue::Null),
    ]));
    assert!(json_subset_matches(&expected, &richer));
    assert!(!json_subset_matches(&richer, &expected));
    assert!(!json_subset_matches(&JsonValue::Null, &JsonValue::Null));
    let nested = JsonValue::Array(vec![JsonValue::Null, richer]);
    assert!(json_contains(&expected, &nested));
    assert!(!json_contains(&JsonValue::Bool(false), &nested));
}
