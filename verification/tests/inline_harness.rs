use runx::contracts::InputDefinition;
use runx::inline_harness::{
    inline_harness_actual_status, inline_harness_case_env, inline_harness_execution_error,
    inline_harness_expectation_error, prepare_inline_harness_case, receipt_id_from_output,
    finalize_report, record_fixture_replay, seeded_answers_from_caller, summarize_inline_harness,
    FixtureReplay, HarnessCase, InlineHarnessCaseOutcome,
};
use runx::json::{JsonObject, JsonValue};

fn object(pairs: Vec<(&str, JsonValue)>) -> JsonObject {
    let mut object = JsonObject::new();
    for (key, value) in pairs {
        object.insert(key.to_owned(), value);
    }
    object
}

fn text(s: &str) -> JsonValue {
    JsonValue::String(s.to_owned())
}

fn closed(disposition: &str) -> JsonValue {
    JsonValue::Object(object(vec![(
        "closure",
        JsonValue::Object(object(vec![("disposition", text(disposition))])),
    )]))
}

fn case(name: &str, runner: Option<&str>, expect: Option<&str>) -> HarnessCase {
    HarnessCase {
        name: name.to_owned(),
        runner: runner.map(str::to_owned),
        inputs: JsonObject::new(),
        env: vec![],
        answers: None,
        approvals: None,
        expect_status: expect.map(str::to_owned),
    }
}

#[test]
fn run_outputs_map_onto_harness_statuses() {
    assert_eq!(inline_harness_actual_status(&JsonValue::Null), "sealed");
    assert_eq!(
        inline_harness_actual_status(&JsonValue::Object(object(vec![("status", text("needs_agent"))]))),
        "needs_agent"
    );
    assert_eq!(inline_harness_actual_status(&closed("deferred")), "needs_agent");
    assert_eq!(inline_harness_actual_status(&closed("blocked")), "policy_denied");
    for failed in ["declined", "failed", "killed", "timed_out", "superseded"] {
        assert_eq!(inline_harness_actual_status(&closed(failed)), "failure");
    }
    assert_eq!(inline_harness_actual_status(&closed("closed")), "sealed");
}

#[test]
fn expectations_judge_each_case() {
    let expects_sealed = case("smoke", None, Some("sealed"));
    assert_eq!(inline_harness_expectation_error(&expects_sealed, &closed("closed")), None);
    assert_eq!(
        inline_harness_expectation_error(&expects_sealed, &closed("blocked")),
        Some("smoke: expected status sealed, got policy_denied".to_owned())
    );
    assert_eq!(inline_harness_expectation_error(&case("free", None, None), &closed("failed")), None);
    assert_eq!(inline_harness_execution_error(&case("f", None, Some("failure")), "boom"), None);
    assert_eq!(
        inline_harness_execution_error(&expects_sealed, "boom"),
        Some("smoke: expected status sealed, execution failed: boom".to_owned())
    );
    assert_eq!(inline_harness_execution_error(&case("n", None, None), "boom"), Some("n: boom".to_owned()));
    let with_receipt = JsonValue::Object(object(vec![("receipt_id", text("rx_1"))]));
    assert_eq!(receipt_id_from_output(&with_receipt), Some("rx_1".to_owned()));
    assert_eq!(receipt_id_from_output(&closed("closed")), None);
}

#[test]
fn cases_without_required_inputs_fail_before_running() {
    let runners = vec![("read".to_owned(), true)];
    let required = || {
        vec![(
            "note".to_owned(),
            InputDefinition { input_type: "string".to_owned(), required: true, description: None, default: None, artifact: None },
        )]
    };
    let outcome = prepare_inline_harness_case(&runners, &vec![required()], &vec![true], &case("c", None, Some("sealed")))
        .expect_err("missing input");
    assert_eq!(
        outcome,
        InlineHarnessCaseOutcome {
            is_graph: true,
            receipt_id: None,
            assertion_error: Some("c: expected status sealed, got failure".to_owned()),
        }
    );
    let mut supplied = case("c", Some("read"), None);
    supplied.inputs = object(vec![("note", text("hello"))]);
    assert_eq!(prepare_inline_harness_case(&runners, &vec![required()], &vec![true], &supplied), Ok(0));
    let unknown = prepare_inline_harness_case(&runners, &vec![required()], &vec![false], &case("u", Some("write"), None))
        .expect_err("unknown runner");
    assert_eq!(
        unknown.assertion_error,
        Some("u: runner write is not declared in the manifest".to_owned())
    );
}

#[test]
fn caller_answers_win_over_approvals() {
    let answers = Some(object(vec![("send.approval", text("answered"))]));
    let approvals = Some(vec![("send.approval".to_owned(), true), ("gate.b".to_owned(), false)]);
    let seeded = seeded_answers_from_caller(&answers, &approvals).expect("seeded");
    assert_eq!(seeded.get("send.approval"), Some(&text("answered")));
    assert_eq!(seeded.get("gate.b"), Some(&JsonValue::Bool(false)));
    assert!(seeded_answers_from_caller(&None, &None).is_none());
    assert!(seeded_answers_from_caller(&Some(JsonObject::new()), &Some(vec![])).is_none());
}

#[test]
fn report_passes_only_without_assertion_errors() {
    let outcomes = vec![
        InlineHarnessCaseOutcome { is_graph: true, receipt_id: Some("rx_1".to_owned()), assertion_error: None },
        InlineHarnessCaseOutcome { is_graph: false, receipt_id: None, assertion_error: Some("b: boom".to_owned()) },
    ];
    let report = summarize_inline_harness(vec!["a".to_owned(), "b".to_owned()], outcomes);
    assert_eq!(report.status, "failed");
    assert_eq!(report.case_count, 2);
    assert_eq!(report.assertion_error_count, 1);
    assert_eq!(report.receipt_ids, vec!["rx_1".to_owned()]);
    assert_eq!(report.graph_case_count, 1);
    let clean = summarize_inline_harness(
        vec!["a".to_owned()],
        vec![InlineHarnessCaseOutcome { is_graph: false, receipt_id: None, assertion_error: None }],
    );
    assert_eq!(clean.status, "passed");
}

#[test]
fn case_variables_override_the_harness_environment() {
    let base = vec![("A".to_owned(), "1".to_owned()), ("B".to_owned(), "2".to_owned())];
    let case_env = vec![("B".to_owned(), "3".to_owned()), ("C".to_owned(), "4".to_owned())];
    let env = inline_harness_case_env(base, &case_env);
    let get = |k: &str| env.iter().find(|(key, _)| key == k).map(|(_, v)| v.clone());
    assert_eq!(get("A"), Some("1".to_owned()));
    assert_eq!(get("B"), Some("3".to_owned()));
    assert_eq!(get("C"), Some("4".to_owned()));
}

#[test]
fn fixture_replays_join_the_report_before_it_is_final() {
    let mut report = summarize_inline_harness(
        vec!["a".to_owned()],
        vec![InlineHarnessCaseOutcome { is_graph: false, receipt_id: None, assertion_error: None }],
    );
    record_fixture_replay(
        &mut report,
        FixtureReplay::Replayed { name: "fixture".to_owned(), receipt_id: "rx_2".to_owned(), is_graph: true },
    );
    assert_eq!(report.case_count, 2);
    assert_eq!(report.graph_case_count, 1);
    assert_eq!(report.case_names, vec!["a".to_owned(), "fixture".to_owned()]);
    finalize_report(&mut report);
    assert_eq!(report.status, "passed");
    record_fixture_replay(&mut report, FixtureReplay::Failed { message: "fixtures/bad.yaml: boom".to_owned() });
    finalize_report(&mut report);
    assert_eq!(report.status, "failed");
    assert_eq!(report.assertion_error_count, 1);
    assert_eq!(report.case_count, 3);
}
