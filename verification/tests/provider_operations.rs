use runx::json::{JsonObject, JsonValue};
use runx::provider::{
    grants_from_response, parse_provider_grant, parse_provider_operation_response,
    provider_operation_body, validate_provider_grant_id, validate_provider_operation,
    ProviderOperationAccess, ProviderOperationError, ProviderOperationRequest,
};

fn object(pairs: Vec<(&str, JsonValue)>) -> JsonObject {
    let mut object = JsonObject::new();
    for (key, value) in pairs {
        object.insert(key.to_owned(), value);
    }
    object
}

fn text(value: &str) -> JsonValue {
    JsonValue::String(value.to_owned())
}

fn request(access: Option<ProviderOperationAccess>) -> ProviderOperationRequest {
    ProviderOperationRequest {
        grant_id: "grant_123".to_owned(),
        operation: "github.issues.read".to_owned(),
        target: "repo/issue/1".to_owned(),
        input: object(vec![("idempotency_key", text("key-1"))]),
        expected_access: access,
    }
}

fn response(pairs: Vec<(&str, JsonValue)>) -> JsonObject {
    let mut base = vec![
        ("status", text("success")),
        ("provider", text("github")),
        ("operation", text("github.issues.read")),
        ("target", text("repo/issue/1")),
        ("access", text("read")),
        ("result", JsonValue::Object(object(vec![("title", text("bug"))]))),
        ("readback_ref", text("rb-1")),
        ("extra", text("dropped")),
    ];
    base.extend(pairs);
    object(base)
}

#[test]
fn grant_ids_and_operations_are_validated() {
    assert!(validate_provider_grant_id("  grant_123  ").is_ok());
    assert_eq!(validate_provider_grant_id("   "), Err(ProviderOperationError::InvalidGrantId));
    assert_eq!(validate_provider_grant_id("a/b"), Err(ProviderOperationError::InvalidGrantId));
    assert_eq!(validate_provider_grant_id("a\u{7}b"), Err(ProviderOperationError::InvalidGrantId));
    assert!(validate_provider_grant_id(&"é".repeat(100)).is_ok());
    assert!(validate_provider_grant_id(&"é".repeat(101)).is_err());
    assert!(validate_provider_operation("github.issue2.read").is_ok());
    for bad in ["github", "github.", ".read", "GitHub.read", "github.2read", "git hub.read"] {
        assert_eq!(
            validate_provider_operation(bad),
            Err(ProviderOperationError::InvalidOperation),
            "{bad}"
        );
    }
    assert_eq!(ProviderOperationAccess::Mutate.as_str(), "mutate");
}

#[test]
fn provider_readback_is_checked_and_projected() {
    let readback = parse_provider_operation_response(
        &response(vec![]),
        &request(Some(ProviderOperationAccess::Read)),
    )
    .unwrap();
    assert_eq!(readback.get("status"), Some(&text("success")));
    assert_eq!(readback.get("readback_ref"), Some(&text("rb-1")));
    assert_eq!(readback.get("extra"), None);
    assert_eq!(readback.len(), 6);
}

#[test]
fn provider_readback_mismatches_fail_closed() {
    let wrong_target = parse_provider_operation_response(
        &response(vec![("target", text("other"))]),
        &request(None),
    )
    .err()
    .map(|e| e.message());
    assert_eq!(
        wrong_target,
        Some(
            "response target \"other\" does not match requested target \"repo/issue/1\"".to_owned()
        )
    );
    let wrong_access = parse_provider_operation_response(
        &response(vec![]),
        &request(Some(ProviderOperationAccess::Mutate)),
    )
    .err()
    .map(|e| e.message());
    assert_eq!(
        wrong_access,
        Some("response access Some(\"read\") does not match requested access \"mutate\"".to_owned())
    );
    let not_success = parse_provider_operation_response(
        &response(vec![("status", text("queued"))]),
        &request(None),
    )
    .err()
    .map(|e| e.message());
    assert_eq!(not_success, Some("response status is not success".to_owned()));
    let mutation = parse_provider_operation_response(
        &response(vec![
            ("access", text("mutate")),
            ("operation_id", text("op-1")),
            ("idempotency_key", text("key-2")),
        ]),
        &request(Some(ProviderOperationAccess::Mutate)),
    )
    .err()
    .map(|e| e.message());
    assert_eq!(
        mutation,
        Some("response idempotency_key does not match the runtime-derived request key".to_owned())
    );
}

#[test]
fn request_body_carries_the_declared_fields() {
    let body = provider_operation_body(&request(Some(ProviderOperationAccess::Read))).unwrap();
    assert_eq!(body.len(), 5);
    assert_eq!(body.get("access"), Some(&text("read")));
    let mut bad = request(None);
    bad.operation = "nodot".to_owned();
    assert_eq!(provider_operation_body(&bad), Err(ProviderOperationError::InvalidOperation));
}

#[test]
fn grant_listing_keeps_bounded_authority_metadata() {
    let grant = JsonValue::Object(object(vec![
        ("grant_id", text(" grant_1 ")),
        ("provider", text("github")),
        ("status", text("active")),
        ("scopes", JsonValue::Array(vec![text(" repo "), text("issues")])),
        ("secret", text("ignored")),
    ]));
    let listing = JsonValue::Object(object(vec![
        ("status", text("success")),
        ("grants", JsonValue::Array(vec![grant.clone()])),
    ]));
    let grants = grants_from_response(&listing).unwrap();
    assert_eq!(grants.len(), 1);
    assert_eq!(grants[0].grant_id, "grant_1");
    assert_eq!(grants[0].scopes, vec!["repo".to_owned(), "issues".to_owned()]);
    let blank_scope = JsonValue::Object(object(vec![
        ("grant_id", text("g")),
        ("provider", text("p")),
        ("status", text("s")),
        ("scopes", JsonValue::Array(vec![text(" ")])),
    ]));
    assert_eq!(
        parse_provider_grant(&blank_scope).err().map(|e| e.message()),
        Some("provider grant scopes must be non-empty strings".to_owned())
    );
    let failed = JsonValue::Object(object(vec![("status", text("error"))]));
    assert_eq!(
        grants_from_response(&failed).err().map(|e| e.message()),
        Some("grant response status is not success".to_owned())
    );
}

#[test]
fn operation_names_are_dot_separated_lowercase_segments() {
    assert!(validate_provider_operation("  thread.reply ").is_ok());
    for bad in ["thread", "Thread.reply", "a..b", "a.b.", ""] {
        assert_eq!(validate_provider_operation(bad), Err(ProviderOperationError::InvalidOperation), "{bad}");
    }
    let longest = format!("a.{}", "b".repeat(98));
    assert!(validate_provider_operation(&longest).is_ok());
    assert!(validate_provider_operation(&format!("{longest}c")).is_err());
}
