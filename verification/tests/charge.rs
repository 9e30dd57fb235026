use runx::charge::{
    charge_challenge, charge_plan, charge_price, charge_verification_request, is_currency_code,
    Admitted, AdmittedList, CredentialAdmission, Finding, PriceAdmission,
};
use runx::json::{JsonNumber, JsonObject, JsonValue};

fn s(v: &str) -> JsonValue {
    JsonValue::String(v.to_owned())
}

fn object(entries: Vec<(&str, JsonValue)>) -> JsonObject {
    let mut o = JsonObject::new();
    for (k, v) in entries {
        o.insert(k.to_owned(), v);
    }
    o
}

fn kept(v: &str) -> Admitted {
    Admitted { value: Some(v.to_owned()), findings: Vec::new() }
}

fn absent() -> Admitted {
    Admitted { value: None, findings: Vec::new() }
}

fn text<'a>(o: &'a JsonObject, k: &str) -> &'a str {
    o.get(k).and_then(|v| v.as_str()).map(|v| v.as_str()).expect("string field")
}

fn finding_pairs(f: &[Finding]) -> Vec<(String, String)> {
    f.iter().map(|f| (f.path.clone(), f.message.clone())).collect()
}

fn ready_admission() -> PriceAdmission {
    PriceAdmission {
        operation: kept("search"),
        price_minor: Some(250),
        currency: kept("USD"),
        settlement_families: AdmittedList { values: vec!["card".to_owned()], findings: Vec::new() },
        counterparty: kept("acme"),
        realm: absent(),
        expires_at_well_formed: true,
        policy_ref: absent(),
    }
}

fn sample_call() -> JsonObject {
    object(vec![("tool", s("search")), ("arguments", JsonValue::Object(object(vec![("q", s("x"))])))])
}

fn sample_policy() -> JsonObject {
    object(vec![
        ("price_minor", JsonValue::Number(JsonNumber::U64(250))),
        ("currency", s("USD")),
        ("accepted_settlement_families", JsonValue::Array(vec![s("card")])),
        ("counterparty", s("acme")),
        ("expires_at", s("  2030-01-01T00:00:00Z ")),
    ])
}

#[test]
fn a_ready_price_is_named_by_the_digest_of_its_fields() {
    let packet = charge_price(&sample_call(), &sample_policy(), &ready_admission()).expect("packet");
    assert!(packet.open_questions.is_empty());
    let price = &packet.charge_price;
    assert_eq!(text(price, "decision"), "ready");
    assert_eq!(
        text(price, "price_id"),
        "charge-price:5e367dfd35c2852857270ff9f0b8d6ec42658fb7709720c97dc90c17af96cf8c"
    );
    assert_eq!(text(price, "realm"), "local");
    assert_eq!(text(price, "expires_at"), "2030-01-01T00:00:00Z");
    assert_eq!(price.get("amount_minor"), Some(&JsonValue::Number(JsonNumber::U64(250))));
    let evidence = &packet.price_evidence;
    assert_eq!(
        text(evidence, "arguments_digest"),
        "sha256:a69fbbcf7209c6f659a75067c9fa03037c2ae23f55a6f854d5994209129bbbf6"
    );
    assert_eq!(
        evidence.get("source_refs"),
        Some(&JsonValue::Array(vec![
            s("policy:sha256:9d17fa9f7d3c846377e8e732f7eefb4e739915fb1d6daaa6af298958075d174e"),
            s("tool-call:sha256:5b71dc8a7c7a822076104c24685ef1a222ed64248a49e5b36f5ea877ffa31cae"),
        ]))
    );
    assert_eq!(text(&packet.policy_metadata, "direction"), "provider_charge");
    assert_eq!(text(&packet.policy_metadata, "provider_realm"), "local");
    let authority = &packet.requested_payment_authority;
    assert_eq!(text(authority, "resource_family"), "effect");
    assert_eq!(authority.get("verbs"), Some(&JsonValue::Array(vec![s("verify")])));
    let bounds = authority.get("bounds").and_then(|b| b.as_object()).expect("bounds");
    let limits = bounds.get("effect_limits").and_then(|l| l.as_array()).expect("limits");
    let limit = limits[0].as_object().expect("limit");
    assert_eq!(text(limit, "family"), "payment");
    assert_eq!(text(limit, "unit"), "USD");
    assert_eq!(text(limit, "peer"), "acme");
    assert_eq!(limit.get("max_per_call_units"), Some(&JsonValue::Number(JsonNumber::U64(250))));
    assert_eq!(limit.get("receipt_before_success"), Some(&JsonValue::Bool(true)));
}

#[test]
fn a_policy_reference_is_cited_in_place_of_the_policy_digest() {
    let mut adm = ready_admission();
    adm.policy_ref = kept("policy:provider/v3");
    let packet = charge_price(&sample_call(), &sample_policy(), &adm).expect("packet");
    let refs = packet.price_evidence.get("source_refs").and_then(|r| r.as_array()).expect("refs");
    assert_eq!(refs[0], s("policy:provider/v3"));
}

#[test]
fn every_gap_in_a_price_is_a_finding_in_order() {
    let call = object(vec![("tool", s("search"))]);
    let policy = object(vec![("expires_at", s("soon"))]);
    let adm = PriceAdmission {
        operation: kept("search"),
        price_minor: Some(0),
        currency: kept("usd"),
        settlement_families: AdmittedList { values: Vec::new(), findings: Vec::new() },
        counterparty: Admitted {
            value: None,
            findings: vec![Finding {
                path: "provider_policy.counterparty".to_owned(),
                message: "provider_policy.counterparty is required".to_owned(),
            }],
        },
        realm: absent(),
        expires_at_well_formed: false,
        policy_ref: absent(),
    };
    let packet = charge_price(&call, &policy, &adm).expect("packet");
    let expected: Vec<(String, String)> = vec![
        ("mcp_tool_call.arguments", "mcp_tool_call.arguments must be an object"),
        ("provider_policy.price_minor", "provider_policy.price_minor must be a positive safe integer"),
        ("provider_policy.currency", "provider_policy.currency must be an uppercase ISO 4217 code"),
        ("provider_policy.accepted_settlement_families", "at least one settlement family is required"),
        ("provider_policy.counterparty", "provider_policy.counterparty is required"),
        ("provider_policy.expires_at", "provider_policy.expires_at must be an ISO-8601 UTC timestamp"),
    ]
    .into_iter()
    .map(|(p, m)| (p.to_owned(), m.to_owned()))
    .collect();
    assert_eq!(finding_pairs(&packet.open_questions), expected);
    assert_eq!(text(&packet.charge_price, "decision"), "blocked");
    assert_eq!(packet.charge_price.get("amount_minor"), Some(&JsonValue::Null));
    assert_eq!(
        text(&packet.price_evidence, "arguments_digest"),
        "sha256:44136fa355b3678a1146ad16f7e8649e94fb4fc21fe77e8310c060f61caaff8a"
    );
}

#[test]
fn a_policy_holding_a_float_has_no_digest_here() {
    let mut policy = sample_policy();
    policy.insert("weight".to_owned(), JsonValue::Number(JsonNumber::F64(1.5f64.to_bits())));
    assert!(charge_price(&sample_call(), &policy, &ready_admission()).is_none());
}

#[test]
fn currency_codes_are_three_uppercase_letters() {
    assert!(is_currency_code("USD"));
    assert!(!is_currency_code("usd"));
    assert!(!is_currency_code("US"));
    assert!(!is_currency_code("USDT"));
    assert!(!is_currency_code("ÉUR"));
}

fn ready_price() -> JsonObject {
    object(vec![
        ("decision", s("ready")),
        ("price_id", s("charge-price:abc")),
        ("amount_minor", JsonValue::Number(JsonNumber::U64(250))),
        ("currency", s("USD")),
        ("settlement_families", JsonValue::Array(vec![s("card"), s("ach")])),
    ])
}

#[test]
fn a_challenge_is_named_by_its_price_and_seed() {
    let authority = object(vec![("resource_family", s("effect"))]);
    let packet = charge_challenge(&Vec::new(), &ready_price(), &authority, "seed-1", "charge-price:abc");
    let id = "charge-challenge:6cc910625e8e81968d1ac9e68e35d23fec892906f09e61f1a1ac70b6a6abc553";
    assert!(packet.open_questions.is_empty());
    assert_eq!(text(&packet.charge_challenge, "challenge_id"), id);
    assert_eq!(text(&packet.charge_challenge, "decision"), "ready");
    assert_eq!(packet.charge_challenge.get("required_authority"), Some(&JsonValue::Object(authority)));
    let signal = &packet.effect_required_signal;
    assert_eq!(text(signal, "challenge_id"), id);
    assert_eq!(text(signal, "rail"), "card");
    assert_eq!(text(signal, "signal_type"), "effect_required");
    assert_eq!(signal.get("counterparty"), Some(&JsonValue::Null));
    assert_eq!(text(&packet.idempotency, "key"), "charge:seed-1");
    assert_eq!(text(&packet.idempotency, "replay_policy"), "recover_or_refuse_duplicate");
    assert_eq!(packet.accepted_settlement_families, JsonValue::Array(vec![s("card"), s("ach")]));
}

#[test]
fn a_blocked_price_blocks_its_challenge() {
    let mut price = ready_price();
    price.insert("decision".to_owned(), s("blocked"));
    price.remove("settlement_families");
    let packet = charge_challenge(&Vec::new(), &price, &JsonObject::new(), "seed-1", "charge-price:abc");
    assert_eq!(
        finding_pairs(&packet.open_questions),
        vec![("price.blocked".to_owned(), "charge price is not ready".to_owned())]
    );
    assert_eq!(text(&packet.charge_challenge, "decision"), "blocked");
    assert_eq!(text(&packet.effect_required_signal, "rail"), "");
    assert_eq!(packet.accepted_settlement_families, JsonValue::Array(Vec::new()));
}

fn credential_admission(family: &str, credential_family: &str) -> CredentialAdmission {
    CredentialAdmission {
        settlement_family: kept(family),
        credential_family: kept(credential_family),
        credential_ref: kept("cred-9"),
        verify_capability_ref: kept("cap-2"),
    }
}

#[test]
fn a_verification_request_binds_its_parts_by_digest() {
    let challenge_packet = object(vec![("accepted_settlement_families", JsonValue::Array(vec![s("card")]))]);
    let challenge = object(vec![("decision", s("ready")), ("challenge_id", s("charge-challenge:c1"))]);
    let credential = object(vec![("family", s("card")), ("credential_ref", s("cred-9"))]);
    let idempotency = object(vec![("key", s("charge:seed-1"))]);
    let packet = charge_verification_request(
        &Vec::new(),
        &ready_price(),
        &challenge_packet,
        &challenge,
        &credential,
        &idempotency,
        &credential_admission("card", "card"),
    )
    .expect("packet");
    assert!(packet.open_questions.is_empty());
    let request = &packet.verification_request;
    assert_eq!(text(request, "decision"), "ready_for_provider_adapter");
    assert_eq!(
        text(request, "request_digest"),
        "sha256:de4cc8706aabd014dccb801187645d554294dd49ea995946bbde9dbe6cf320fa"
    );
    assert_eq!(text(request, "price_id"), "charge-price:abc");
    assert_eq!(text(&packet.credential_binding, "family"), "card");
    assert_eq!(packet.provider_status, "not_called");
    assert_eq!(packet.receipt_status, "not_sealed");
    assert_eq!(packet.forwarding_status, "not_forwarded");
}

#[test]
fn raw_credential_fields_and_unadmitted_families_are_found() {
    let challenge_packet = object(vec![("accepted_settlement_families", JsonValue::Array(vec![s("card")]))]);
    let challenge = object(vec![("decision", s("blocked"))]);
    let credential = object(vec![
        ("family", s("ach")),
        ("credential_ref", s("cred-9")),
        ("pan", s("4111")),
        ("cvv", s("123")),
    ]);
    let packet = charge_verification_request(
        &Vec::new(),
        &ready_price(),
        &challenge_packet,
        &challenge,
        &credential,
        &JsonObject::new(),
        &credential_admission("ach", "card"),
    )
    .expect("packet");
    let expected: Vec<(String, String)> = vec![
        ("credential.raw_fields", "returned_credential contains unsupported fields: cvv, pan"),
        ("family.not_admitted", "settlement family is not admitted by the challenge"),
        ("family.mismatch", "credential family does not match selected settlement family"),
        ("challenge.blocked", "charge challenge is not ready"),
    ]
    .into_iter()
    .map(|(p, m)| (p.to_owned(), m.to_owned()))
    .collect();
    assert_eq!(finding_pairs(&packet.open_questions), expected);
    assert_eq!(text(&packet.verification_request, "decision"), "blocked");
    assert_eq!(text(&packet.verification_request, "challenge_id"), "");
}

#[test]
fn a_plan_is_ready_only_for_a_ready_request_without_findings() {
    let ready = |d: &str| object(vec![("decision", s(d))]);
    let price_packet = object(vec![("charge_price", JsonValue::Object(ready("ready")))]);
    let challenge_packet = object(vec![
        ("charge_challenge", JsonValue::Object(ready("ready"))),
        ("idempotency", JsonValue::Object(object(vec![("key", s("charge:seed-1"))]))),
    ]);
    let verification_packet =
        object(vec![("credential_binding", JsonValue::Object(object(vec![("family", s("card"))])))]);
    let request = ready("ready_for_provider_adapter");
    let plan = charge_plan(&Vec::new(), &price_packet, &challenge_packet, &verification_packet, &request)
        .expect("plan");
    let p = &plan.plan;
    assert_eq!(text(p, "decision"), "ready_for_provider_verification");
    assert_eq!(
        text(p, "plan_digest"),
        "sha256:a41e8699295ddc402225cb3fc3824e03adef7c29887dab34421e26b8f7736230"
    );
    assert_eq!(text(p, "schema"), "runx.payment.charge_plan.v1");
    assert_eq!(p.get("runtime_forwarding_enabled"), Some(&JsonValue::Bool(false)));
    assert_eq!(text(p, "approval_status"), "not_requested");
    assert_eq!(
        text(p, "next_action"),
        "route through the selected settlement-family verifier; seal its receipt before forwarding"
    );

    let gap = vec![Finding { path: "x".to_owned(), message: "y".to_owned() }];
    let blocked = charge_plan(&gap, &price_packet, &challenge_packet, &verification_packet, &request)
        .expect("plan");
    assert_eq!(text(&blocked.plan, "decision"), "blocked");
    assert_eq!(
        text(&blocked.plan, "next_action"),
        "resolve the recorded pricing, challenge, or credential gaps"
    );
    assert_eq!(finding_pairs(&blocked.findings), vec![("x".to_owned(), "y".to_owned())]);
}
