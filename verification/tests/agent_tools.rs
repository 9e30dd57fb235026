use runx::agent_tools::{context_artifact_for_prompt, tool_input_property, tool_input_schema, ContextEntry, ToolInput};
use runx::json::{JsonObject, JsonValue};

fn input(kind: &str, required: bool, description: Option<&str>, default: Option<JsonValue>) -> ToolInput {
    ToolInput {
        input_type: kind.to_owned(),
        required,
        description: description.map(str::to_owned),
        default,
    }
}

#[test]
fn tool_properties_keep_schema_types_descriptions_and_defaults() {
    let property = tool_input_property(&input("string", true, Some("File to read"), Some(JsonValue::String("README.md".to_owned()))));
    assert_eq!(property.get("type"), Some(&JsonValue::String("string".to_owned())));
    assert_eq!(property.get("description"), Some(&JsonValue::String("File to read".to_owned())));
    assert_eq!(property.get("default"), Some(&JsonValue::String("README.md".to_owned())));
    let custom = tool_input_property(&input("path", false, None, None));
    assert!(custom.is_empty());
}

#[test]
fn tool_input_schema_lists_properties_and_required() {
    let inputs = vec![
        ("path".to_owned(), input("string", true, None, None)),
        ("limit".to_owned(), input("integer", false, None, None)),
    ];
    let JsonValue::Object(schema) = tool_input_schema(&inputs) else { panic!("object schema") };
    assert_eq!(schema.get("type"), Some(&JsonValue::String("object".to_owned())));
    assert_eq!(schema.get("required"), Some(&JsonValue::Array(vec![JsonValue::String("path".to_owned())])));
    assert_eq!(schema.get("additionalProperties"), Some(&JsonValue::Bool(false)));
    let Some(JsonValue::Object(properties)) = schema.get("properties") else { panic!("properties") };
    assert_eq!(properties.len(), 2);
    assert!(properties.get("path").is_some());
    assert_eq!(schema.len(), 4);
}

#[test]
fn context_artifacts_carry_identity_and_data() {
    let mut data = JsonObject::new();
    data.insert("objective".to_owned(), JsonValue::String("review product taste".to_owned()));
    let entry = ContextEntry {
        entry_type: Some("runx.skill.context".to_owned()),
        artifact_id: "ctx_1".to_owned(),
        hash: "sha256:taste".to_owned(),
        data,
    };
    let artifact = context_artifact_for_prompt(&entry);
    assert_eq!(artifact.get("type"), Some(&JsonValue::String("runx.skill.context".to_owned())));
    assert_eq!(artifact.get("hash"), Some(&JsonValue::String("sha256:taste".to_owned())));
    assert_eq!(artifact.len(), 4);
}
