use runx::contracts::InputDefinition;
use runx::input_contract::{
    apply_defaults, is_missing, json_type, materialize_input, materialize_runner_inputs,
    materialize_tool_inputs, missing_required, unwrap_artifact,
};
use runx::json::{JsonNumber, JsonObject, JsonValue};

fn object(pairs: Vec<(&str, JsonValue)>) -> JsonObject {
    let mut object = JsonObject::new();
    for (key, value) in pairs {
        object.insert(key.to_owned(), value);
    }
    object
}

fn input(kind: &str, required: bool, default: Option<JsonValue>, artifact: Option<bool>) -> InputDefinition {
    InputDefinition {
        input_type: kind.to_owned(),
        required,
        description: None,
        default,
        artifact,
    }
}

#[test]
fn defaults_fill_only_unsupplied_inputs() {
    let declared = vec![
        ("a".to_owned(), input("string", false, Some(JsonValue::String("x".to_owned())), None)),
        ("b".to_owned(), input("string", false, Some(JsonValue::String("y".to_owned())), None)),
        ("c".to_owned(), input("string", true, None, None)),
    ];
    let mut inputs = object(vec![("a", JsonValue::String("given".to_owned()))]);
    apply_defaults(&declared, &mut inputs);
    assert_eq!(inputs.get("a"), Some(&JsonValue::String("given".to_owned())));
    assert_eq!(inputs.get("b"), Some(&JsonValue::String("y".to_owned())));
    assert_eq!(inputs.get("c"), None);
}

#[test]
fn missing_required_lists_absent_and_null_inputs_without_default() {
    let declared = vec![
        ("a".to_owned(), input("string", true, None, None)),
        ("b".to_owned(), input("string", true, None, None)),
        ("c".to_owned(), input("string", true, Some(JsonValue::Null), None)),
        ("d".to_owned(), input("string", false, None, None)),
    ];
    let inputs = object(vec![("b", JsonValue::Null)]);
    assert_eq!(missing_required(&declared, &inputs), vec!["a".to_owned(), "b".to_owned()]);
    assert!(is_missing(None));
    assert!(is_missing(Some(&JsonValue::Null)));
    assert!(!is_missing(Some(&JsonValue::Bool(false))));
}

#[test]
fn required_and_type_errors_name_the_owner_and_input() {
    let required = materialize_input("runner", "topic", &input("string", true, None, None), None)
        .err()
        .map(|e| (e.input().to_owned(), e.message().to_owned()));
    assert_eq!(
        required,
        Some(("topic".to_owned(), "runner input 'topic' is required".to_owned()))
    );
    let typed = materialize_input(
        "tool",
        "count",
        &input("integer", true, None, None),
        Some(&JsonValue::Number(JsonNumber::F64(1.5f64.to_bits()))),
    )
    .err()
    .map(|e| e.message().to_owned());
    assert_eq!(
        typed,
        Some("tool input 'count' must be integer, received number".to_owned())
    );
    assert_eq!(
        materialize_input("tool", "opt", &input("string", false, None, None), Some(&JsonValue::Null)),
        Ok(None)
    );
}

#[test]
fn artifact_inputs_unwrap_their_data() {
    let envelope = JsonValue::Object(object(vec![(
        "artifact",
        JsonValue::Object(object(vec![("data", JsonValue::Bool(true))])),
    )]));
    assert_eq!(unwrap_artifact(&envelope, "x"), Ok(JsonValue::Bool(true)));
    let empty = JsonValue::Object(object(vec![("schema", JsonValue::Null)]));
    assert_eq!(
        unwrap_artifact(&empty, "x"),
        Err("tool input 'x' is an artifact envelope without data".to_owned())
    );
    let plain = JsonValue::Object(object(vec![("other", JsonValue::Null)]));
    assert_eq!(unwrap_artifact(&plain, "x"), Ok(plain.clone()));
    let direct = JsonValue::Object(object(vec![("data", JsonValue::Null)]));
    assert_eq!(
        materialize_input("tool", "x", &input("json", true, None, Some(true)), Some(&direct))
            .err()
            .map(|e| e.message().to_owned()),
        Some("tool input 'x' is required".to_owned())
    );
}

#[test]
fn tool_inputs_prefer_resolved_values_and_drop_undeclared_ones() {
    let declared = vec![
        ("a".to_owned(), input("string", true, None, None)),
        ("b".to_owned(), input("boolean", false, Some(JsonValue::Bool(true)), None)),
    ];
    let statics = object(vec![
        ("a", JsonValue::String("static".to_owned())),
        ("z", JsonValue::Null),
    ]);
    let resolved = object(vec![("a", JsonValue::String("resolved".to_owned()))]);
    let out = materialize_tool_inputs(&declared, &statics, &resolved).unwrap();
    assert_eq!(out.len(), 2);
    assert_eq!(out.get("a"), Some(&JsonValue::String("resolved".to_owned())));
    assert_eq!(out.get("b"), Some(&JsonValue::Bool(true)));
    let runner = materialize_runner_inputs(&declared, &JsonObject::new())
        .err()
        .map(|e| e.message().to_owned());
    assert_eq!(runner, Some("runner input 'a' is required".to_owned()));
}

#[test]
fn type_names_and_acceptance() {
    assert_eq!(json_type(&JsonValue::Number(JsonNumber::U64(3))), "integer");
    assert_eq!(json_type(&JsonValue::Array(vec![])), "array");
    let number = input("number", true, None, None);
    assert!(number.accepts_value(&JsonValue::Number(JsonNumber::I64(-1))));
    assert!(!number.accepts_value(&JsonValue::String("1".to_owned())));
    assert!(!input("uuid", true, None, None).accepts_value(&JsonValue::Null));
    assert!(input("json", true, None, None).accepts_value(&JsonValue::Null));
}
