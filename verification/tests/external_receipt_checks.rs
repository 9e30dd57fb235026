use runx::external_receipt::{
    check_verifier_outcome, receipt_ref, required_body_string, validate_digest,
    validate_receipt_binding, validate_target, verification_output, verifier_args, verifier_command,
    ReceiptBinding,
    ExternalReceiptEffect, EXTERNAL_RECEIPT_EFFECT_FAMILY, EXTERNAL_RECEIPT_VERIFY_TOOL,
};
use runx::json::{JsonObject, JsonValue};

fn object(pairs: Vec<(&str, JsonValue)>) -> JsonObject {
    let mut object = JsonObject::new();
    for (key, value) in pairs {
        object.insert(key.to_owned(), value);
    }
    object
}

fn text(s: &str) -> JsonValue {
    JsonValue::String(s.to_owned())
}

fn receipt(head: &str, fingerprint: &str, blockers: Vec<JsonValue>) -> JsonValue {
    JsonValue::Object(object(vec![
        (
            "body",
            JsonValue::Object(object(vec![
                ("task_id", text("issue-442")),
                ("verdict", text("pass")),
                ("head_commit", text(head)),
                ("spec_fingerprint", text(fingerprint)),
                ("open_blockers", JsonValue::Array(blockers)),
            ])),
        ),
        (
            "signature",
            JsonValue::Object(object(vec![("alg", text("ed25519"))])),
        ),
    ]))
}

#[test]
fn canonical_verifier_binds_exact_target_and_contract_without_shell_expansion() {
    let target = "0123456789abcdef0123456789abcdef01234567";
    let contract_hex = "a".repeat(64);
    let contract = format!("sha256:{contract_hex}");
    assert!(validate_target(target).is_ok());
    assert!(validate_digest(&contract).is_ok());
    let binding = validate_receipt_binding(&receipt(target, &contract_hex, vec![]), target, &contract)
        .expect("receipt binds the request");
    assert_eq!(binding.task_id, "issue-442");
    assert_eq!(binding.verdict, "pass");
    let env = vec![("RUNX_SCAFLD_BIN".to_owned(), "/opt/scafld-fixture".to_owned())];
    assert_eq!(verifier_command(&env), "/opt/scafld-fixture");
    assert_eq!(
        verifier_args("/repo/receipt.json", target, "/repo"),
        vec!["verify", "/repo/receipt.json", "--target", target, "--root", "/repo", "--json"]
    );
    let ok = JsonValue::Object(object(vec![
        ("ok", JsonValue::Bool(true)),
        ("command", text("verify")),
    ]));
    assert!(check_verifier_outcome(false, false, true, &ok).is_ok());
}

#[test]
fn forged_contract_binding_is_rejected_before_verifier_execution() {
    let contract = format!("sha256:{}", "a".repeat(64));
    let error = validate_receipt_binding(&receipt("abc123", &"b".repeat(64), vec![]), "abc123", &contract)
        .expect_err("forged contract binding unexpectedly verified");
    assert!(error.contains("spec_fingerprint"));
}

#[test]
fn receipt_binding_rejects_each_mismatch_in_order() {
    let hex = "c".repeat(64);
    let contract = format!("sha256:{hex}");
    assert_eq!(
        validate_receipt_binding(&receipt("abc", &hex, vec![]), "def", &contract),
        Err("receipt head_commit does not match target".to_owned())
    );
    assert_eq!(
        validate_receipt_binding(&receipt("abc", &hex, vec![text("todo")]), "abc", &contract),
        Err("receipt has open blockers".to_owned())
    );
    assert_eq!(
        validate_receipt_binding(&text("not an object"), "abc", &contract),
        Err("receipt omits its signed body".to_owned())
    );
    let failing = JsonValue::Object(object(vec![(
        "body",
        JsonValue::Object(object(vec![
            ("task_id", text("t")),
            ("verdict", text("fail")),
        ])),
    )]));
    assert_eq!(
        validate_receipt_binding(&failing, "abc", &contract),
        Err("receipt verdict is not pass".to_owned())
    );
    // A doubled `sha256:` prefix is stripped entirely before comparison.
    let doubled = format!("sha256:sha256:{hex}");
    assert!(validate_receipt_binding(&receipt("abc", &hex, vec![]), "abc", &doubled).is_ok());
}

#[test]
fn targets_and_digests_are_bounded() {
    assert!(validate_target("").is_err());
    assert!(validate_target("-rf").is_err());
    assert!(validate_target("main branch").is_err());
    assert!(validate_target(&"x".repeat(1025)).is_err());
    assert!(validate_target(&"x".repeat(1024)).is_ok());
    assert_eq!(
        validate_target("a\0b"),
        Err("target must be a bounded Git ref or commit id".to_owned())
    );
    assert!(validate_digest(&format!("sha256:{}", "A".repeat(64))).is_ok());
    assert!(validate_digest(&format!("sha256:{}", "g".repeat(64))).is_err());
    assert_eq!(
        validate_digest("md5:abc"),
        Err("contract_digest must be a sha256 digest".to_owned())
    );
}

#[test]
fn blank_body_fields_are_omitted() {
    let body = object(vec![("task_id", text("  ")), ("verdict", text("pass"))]);
    assert_eq!(
        required_body_string(&body, "task_id"),
        Err("receipt body omits task_id".to_owned())
    );
    assert_eq!(required_body_string(&body, "verdict"), Ok("pass".to_owned()));
}

#[test]
fn verifier_defaults_and_outcomes() {
    assert_eq!(verifier_command(&vec![]), "scafld");
    assert_eq!(
        verifier_command(&vec![("RUNX_SCAFLD_BIN".to_owned(), "   ".to_owned())]),
        "scafld"
    );
    let not_ok = JsonValue::Object(object(vec![("ok", JsonValue::Bool(false))]));
    assert_eq!(
        check_verifier_outcome(true, false, true, &not_ok),
        Err("canonical verifier exceeded runtime bounds".to_owned())
    );
    assert_eq!(
        check_verifier_outcome(false, false, false, &not_ok),
        Err("canonical verifier rejected the receipt".to_owned())
    );
    assert_eq!(
        check_verifier_outcome(false, false, true, &not_ok),
        Err("canonical verifier did not report success".to_owned())
    );
    assert_eq!(receipt_ref("sha256:abc"), "runx:external_receipt:sha256:abc");
}

#[test]
fn only_the_verify_tool_is_admitted() {
    let effect = ExternalReceiptEffect;
    assert_eq!(effect.family(), EXTERNAL_RECEIPT_EFFECT_FAMILY);
    assert!(effect.matches_target(Some(EXTERNAL_RECEIPT_VERIFY_TOOL)));
    assert!(!effect.matches_target(Some("external_receipt.write")));
    assert!(!effect.matches_target(None));
    let admission = effect
        .admission(Some(EXTERNAL_RECEIPT_VERIFY_TOOL), "verify-step")
        .expect("admitted");
    assert_eq!(admission.family, "external_receipt");
    assert_eq!(admission.parent_term_id, "external-receipt:workspace");
    assert_eq!(admission.child_term_id, "external-receipt:verify-step");
    assert!(effect.admission(Some("other"), "s").is_none());
}

#[test]
fn the_verification_record_binds_receipt_and_request() {
    let binding = ReceiptBinding { task_id: "task-1".to_owned(), verdict: "pass".to_owned() };
    let output = verification_output(&binding, "abc123", "sha256:cd", "sha256:ef", "2024-01-01T00:00:00Z");
    assert_eq!(output.len(), 1);
    let record = match output.get("external_receipt_verification") {
        Some(JsonValue::Object(o)) => o,
        _ => panic!("record expected"),
    };
    let text = |k: &str| match record.get(k) {
        Some(JsonValue::String(s)) => s.clone(),
        _ => String::new(),
    };
    assert_eq!(record.len(), 10);
    assert_eq!(text("schema"), "runx.external_receipt.verification.v1");
    assert_eq!(text("verifier"), "scafld");
    assert_eq!(record.get("verified"), Some(&JsonValue::Bool(true)));
    assert_eq!(text("task_id"), "task-1");
    assert_eq!(text("verdict"), "pass");
    assert_eq!(text("target"), "abc123");
    assert_eq!(text("contract_digest"), "sha256:cd");
    assert_eq!(text("receipt_ref"), "runx:external_receipt:sha256:ef");
    assert_eq!(text("receipt_digest"), "sha256:ef");
    assert_eq!(text("verified_at"), "2024-01-01T00:00:00Z");
}
