use runx::inspection::{display_json_scalar, inspection_text};
use runx::json_text::json_text_of;
use runx::json::{JsonNumber, JsonObject, JsonValue};

fn text(s: &str) -> JsonValue {
    JsonValue::String(s.to_owned())
}

fn object(entries: Vec<(&str, JsonValue)>) -> JsonValue {
    let mut o = JsonObject::new();
    for (k, v) in entries {
        o.insert(k.to_owned(), v);
    }
    JsonValue::Object(o)
}

#[test]
fn non_objects_print_an_empty_object() {
    assert_eq!(inspection_text(&JsonValue::Null, ""), Some("{}\n".to_owned()));
}

#[test]
fn runner_lists_follow_the_header() {
    let value = object(vec![
        ("name", text("echo")),
        ("runners", JsonValue::Array(vec![text("a"), JsonValue::Bool(true), text("b")])),
    ]);
    assert_eq!(
        inspection_text(&value, "ignored\n"),
        Some("skill: echo\nrunners:\n  - a\n  - b\nnext: runx skill <skill> <runner>\n".to_owned())
    );
    let unnamed = object(vec![]);
    assert_eq!(inspection_text(&unnamed, ""), Some("skill: <unnamed>\n".to_owned()));
}

#[test]
fn a_runner_is_described_in_full() {
    let value = object(vec![
        ("name", text("echo")),
        ("description", text("Echoes")),
        ("version", text("1.0.0")),
        (
            "runner",
            object(vec![
                ("name", text("default")),
                ("type", text("agent")),
                (
                    "inputs",
                    JsonValue::Array(vec![
                        object(vec![
                            ("name", text("q")),
                            ("type", text("string")),
                            ("required", JsonValue::Bool(true)),
                        ]),
                        object(vec![("name", text("n"))]),
                    ]),
                ),
                ("outputs", JsonValue::Array(vec![object(vec![("name", text("answer"))])])),
            ]),
        ),
        ("readiness", object(vec![("status", text("ready"))])),
        ("credential", object(vec![("provider", text("github"))])),
        (
            "capabilities",
            object(vec![
                ("execution", text("agent")),
                ("approval", JsonValue::Bool(true)),
                ("requires_adapter", JsonValue::Null),
                ("completion", JsonValue::Number(JsonNumber::I64(3))),
            ]),
        ),
        ("examples", JsonValue::Array(vec![text("runx skill echo")])),
        ("resume", object(vec![("may_pause", JsonValue::Bool(true))])),
    ]);
    let expected = "skill: echo\n\
description: Echoes\n\
version: 1.0.0\n\
runner: default\n\
type: agent\n\
readiness: ready\n\
provider: ok\n\
credential: github (unknown)\n\
execution: agent\n\
completion: 3\n\
requires_adapter: null\n\
approval: true\n\
inputs:\n  - q: string (required)\n  - n: json (optional)\n\
outputs:\n  - answer: json\n\
examples:\n  - runx skill echo\n\
resume: runx resume <run-id> answers.json\n\
run: runx skill <skill> [runner]\n";
    assert_eq!(inspection_text(&value, "provider: ok\n"), Some(expected.to_owned()));
}

#[test]
fn float_capabilities_are_left_to_the_json_writer() {
    let value = object(vec![
        ("runner", object(vec![])),
        (
            "capabilities",
            object(vec![("execution", JsonValue::Number(JsonNumber::F64(1.5f64.to_bits())))]),
        ),
    ]);
    assert_eq!(inspection_text(&value, ""), None);
}

#[test]
fn scalars_display_as_compact_json() {
    assert_eq!(display_json_scalar(&text("plain")), Some("plain".to_owned()));
    assert_eq!(
        display_json_scalar(&JsonValue::Number(JsonNumber::I64(-12))),
        Some("-12".to_owned())
    );
    assert_eq!(
        display_json_scalar(&JsonValue::Number(JsonNumber::U64(18446744073709551615))),
        Some("18446744073709551615".to_owned())
    );
    assert_eq!(
        display_json_scalar(&JsonValue::Number(JsonNumber::I64(i64::MIN))),
        Some("-9223372036854775808".to_owned())
    );
    let nested = object(vec![
        ("b", JsonValue::Array(vec![JsonValue::Number(JsonNumber::U64(1)), text("say \"hi\"")])),
        ("a", JsonValue::Null),
    ]);
    assert_eq!(
        json_text_of(&nested),
        Some("{\"a\":null,\"b\":[1,\"say \\\"hi\\\"\"]}".to_owned())
    );
    assert_eq!(json_text_of(&JsonValue::Array(vec![])), Some("[]".to_owned()));
    assert_eq!(json_text_of(&object(vec![])), Some("{}".to_owned()));
}

#[test]
fn strings_escape_quotes_backslashes_and_controls() {
    assert_eq!(
        json_text_of(&text("a\"b\\c\u{1}\t\n\u{7f}é")),
        Some("\"a\\\"b\\\\c\\u0001\\t\\n\u{7f}é\"".to_owned())
    );
    assert_eq!(json_text_of(&text("\u{1f}\u{8}\u{c}\r")), Some("\"\\u001f\\b\\f\\r\"".to_owned()));
}
