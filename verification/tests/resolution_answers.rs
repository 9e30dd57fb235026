use runx::answers::{
    normalize_answers, normalize_graph_answers, ResolutionAnswers, ResolutionError,
};
use runx::json::{JsonObject, JsonValue};

fn object(pairs: Vec<(&str, JsonValue)>) -> JsonObject {
    let mut object = JsonObject::new();
    for (key, value) in pairs {
        object.insert(key.to_owned(), value);
    }
    object
}

fn text(value: &str) -> JsonValue {
    JsonValue::String(value.to_owned())
}

fn nested_file() -> JsonObject {
    object(vec![
        (
            "answers",
            JsonValue::Object(object(vec![("agent.task", text("done"))])),
        ),
        (
            "approvals",
            JsonValue::Object(object(vec![(
                "send.approval",
                JsonValue::Object(object(vec![
                    ("approved", JsonValue::Bool(true)),
                    ("reason", text("operator authorized the exact send")),
                ])),
            )])),
        ),
    ])
}

#[test]
fn nested_approvals_retain_host_attested_human_provenance() -> Result<(), String> {
    let approval_id = "send.approval";
    let answers = normalize_answers(nested_file()).map_err(|error| error.message())?;

    assert!(answers.is_human_approval(approval_id));
    assert!(!answers.is_human_approval("agent.task"));
    assert!(matches!(answers.get(approval_id), Some(JsonValue::Object(_))));
    Ok(())
}

#[test]
fn resolution_answers_flat_answers_do_not_gain_human_approval_authority() -> Result<(), String> {
    let answers = normalize_answers(object(vec![("send.approval", JsonValue::Bool(true))]))
        .map_err(|error| error.message())?;

    assert!(!answers.is_human_approval("send.approval"));
    Ok(())
}

#[test]
fn continuation_merge_retains_completed_approval_and_new_agent_answer() -> Result<(), String> {
    let mut accumulated = ResolutionAnswers::from_lanes(
        JsonObject::new(),
        vec![("action.approval".to_owned(), JsonValue::Bool(true))],
    )
    .map_err(|error| error.message())?;
    accumulated
        .merge(ResolutionAnswers::agent(object(vec![(
            "delegate.result",
            text("completed"),
        )])))
        .map_err(|error| error.message())?;

    assert!(accumulated.is_human_approval("action.approval"));
    assert_eq!(accumulated.get("delegate.result"), Some(&text("completed")));
    Ok(())
}

#[test]
fn continuation_merge_rejects_authority_lane_changes() -> Result<(), String> {
    let mut accumulated = ResolutionAnswers::from_lanes(
        JsonObject::new(),
        vec![("action.approval".to_owned(), JsonValue::Bool(true))],
    )
    .map_err(|error| error.message())?;
    let Err(error) = accumulated.merge(ResolutionAnswers::agent(object(vec![(
        "action.approval",
        JsonValue::Bool(true),
    )]))) else {
        return Err("an agent answer replaced a human approval".to_owned());
    };

    assert!(error.message().contains("authority lane"));
    Ok(())
}

#[test]
fn nested_approvals_retain_authenticated_human_provenance() -> Result<(), String> {
    let approval_id = "send.approval";
    let answers = normalize_graph_answers(nested_file()).map_err(|error| error.message())?;

    assert!(answers.is_human_approval(approval_id));
    assert!(!answers.is_human_approval("agent.task"));
    assert!(matches!(answers.get(approval_id), Some(JsonValue::Object(_))));
    Ok(())
}

#[test]
fn graph_state_flat_answers_do_not_gain_human_approval_authority() -> Result<(), String> {
    let answers = normalize_graph_answers(object(vec![("send.approval", JsonValue::Bool(true))]))
        .map_err(|error| error.message())?;

    assert!(!answers.is_human_approval("send.approval"));
    Ok(())
}

#[test]
fn continuation_merge_rejects_changed_value_and_digest() {
    let mut accumulated = ResolutionAnswers::agent(object(vec![("a", text("one"))]));
    let error = accumulated
        .merge(ResolutionAnswers::agent(object(vec![("a", text("two"))])))
        .err();
    assert_eq!(
        error.map(|e| e.message()),
        Some("continuation changed the recorded resolution for a".to_owned())
    );

    let mut bound = normalize_answers(object(vec![
        ("answers", JsonValue::Object(object(vec![("a", text("one"))]))),
        (
            "request_digests",
            JsonValue::Object(object(vec![("a", text("sha256:1"))])),
        ),
    ]))
    .unwrap();
    assert!(bound.requires_request_digest("a"));
    assert_eq!(bound.request_digest("a"), Some("sha256:1"));
    let changed = normalize_answers(object(vec![
        ("answers", JsonValue::Object(object(vec![("a", text("one"))]))),
        (
            "request_digests",
            JsonValue::Object(object(vec![("a", text("sha256:2"))])),
        ),
    ]))
    .unwrap();
    assert_eq!(
        bound.merge(changed).err(),
        Some(ResolutionError::ChangedDigestBinding("a".to_owned()))
    );
}

#[test]
fn merging_the_same_answers_again_changes_nothing() {
    let mut accumulated = normalize_answers(nested_file()).unwrap();
    accumulated.merge(normalize_answers(nested_file()).unwrap()).unwrap();
    assert!(accumulated.is_human_approval("send.approval"));
    assert!(!accumulated.is_human_approval("agent.task"));
    assert_eq!(accumulated.get("agent.task"), Some(&text("done")));
}

#[test]
fn answers_file_errors_name_their_cause() {
    let mixed = normalize_answers(object(vec![
        ("answers", JsonValue::Object(JsonObject::new())),
        ("zeta", JsonValue::Null),
        ("extra", JsonValue::Null),
    ]))
    .err()
    .map(|e| e.message());
    assert_eq!(
        mixed,
        Some(
            "answers file mixes top-level keys [extra, zeta] with the nested answers/approvals shape"
                .to_owned()
        )
    );
    let not_object = normalize_answers(object(vec![("approvals", JsonValue::Bool(true))])).err();
    assert_eq!(not_object, Some(ResolutionError::ApprovalsNotObject));
    let bad_approval = normalize_answers(object(vec![(
        "approvals",
        JsonValue::Object(object(vec![("gate", text("yes"))])),
    )]))
    .err()
    .map(|e| e.message());
    assert_eq!(
        bad_approval,
        Some("approvals.gate must be a boolean or {approved: boolean, reason?: string}".to_owned())
    );
    let twice = normalize_answers(object(vec![
        ("answers", JsonValue::Object(object(vec![("gate", JsonValue::Bool(true))]))),
        ("approvals", JsonValue::Object(object(vec![("gate", JsonValue::Bool(true))]))),
    ]))
    .err();
    assert_eq!(twice, Some(ResolutionError::DeclaredTwice("gate".to_owned())));
    let blank_digest = normalize_answers(object(vec![(
        "request_digests",
        JsonValue::Object(object(vec![("a", text("  "))])),
    )]))
    .err();
    assert_eq!(blank_digest, Some(ResolutionError::EmptyDigest));
    let blank_reason = normalize_answers(object(vec![(
        "approvals",
        JsonValue::Object(object(vec![(
            "gate",
            JsonValue::Object(object(vec![
                ("approved", JsonValue::Bool(false)),
                ("reason", text(" ")),
            ])),
        )])),
    )]))
    .err();
    assert_eq!(
        blank_reason,
        Some(ResolutionError::InvalidApproval("gate".to_owned()))
    );
}

#[test]
fn graph_answers_treat_request_digests_as_an_extra_key() {
    let error = normalize_graph_answers(object(vec![
        ("answers", JsonValue::Object(JsonObject::new())),
        ("request_digests", JsonValue::Object(JsonObject::new())),
    ]))
    .err();
    assert_eq!(
        error,
        Some(ResolutionError::MixedShape(vec!["request_digests".to_owned()]))
    );
}
