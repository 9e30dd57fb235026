use runx::refund_proof::{
    payment_projection, resolve_refund_proof, validated_payment_limit, verified_refund_history,
    AuthorityEffectLimit, AuthorityTerm, AuthorityVerb, PaymentReceipt, ProofKind, ReceiptAct,
    Reference, ReferenceType,
};
use sha2::{Digest, Sha256};

fn limit(operation: &str, amount: Option<u64>, channels: &[&str]) -> AuthorityEffectLimit {
    AuthorityEffectLimit {
        family: "payment".to_owned(),
        unit: "USD".to_owned(),
        max_per_call_units: amount,
        channels: channels.iter().map(|c| c.to_string()).collect(),
        peer: Some("payer:demo".to_owned()),
        operation: Some(operation.to_owned()),
        receipt_before_success: true,
        idempotency_required: true,
        recovery_required: true,
        single_use_capability: true,
    }
}

fn reference(kind: ReferenceType, uri: &str, proof: Option<ProofKind>) -> Reference {
    Reference { reference_type: kind, uri: uri.to_owned(), proof_kind: proof }
}

fn payment_receipt(id: &str, verb: AuthorityVerb, operation: &str, amount: u64, original: Option<&str>) -> PaymentReceipt {
    let mut refs = vec![
        reference(ReferenceType::Verification, &format!("proof:{id}"), Some(ProofKind::EffectEvidence)),
        reference(ReferenceType::Target, &format!("runx:money_movement:{id}"), Some(ProofKind::EffectFinality)),
    ];
    if let Some(original) = original {
        refs.push(reference(ReferenceType::Receipt, &format!("runx:receipt:{original}"), Some(ProofKind::EffectFinality)));
    }
    PaymentReceipt {
        id: id.to_owned(),
        digest: format!("sha256:{id}"),
        closed: true,
        terms: vec![AuthorityTerm { verbs: vec![verb], effect_limits: vec![limit(operation, Some(amount), &["mock"])] }],
        acts: vec![ReceiptAct {
            source_refs: vec![],
            target_refs: vec![],
            artifact_refs: vec![],
            criterion_verification_refs: vec![refs],
        }],
    }
}

fn expected_digest(original: &PaymentReceipt, history: &[(&str, &str, u64)]) -> String {
    let entries = history
        .iter()
        .map(|(r, d, a)| {
            serde_json::Value::Array(vec![
                serde_json::Value::from(*r),
                serde_json::Value::from(*d),
                serde_json::Value::from(*a),
            ])
        })
        .collect();
    let mut object = serde_json::Map::new();
    object.insert("original_receipt_ref".to_owned(), serde_json::Value::from(original.id.as_str()));
    object.insert("original_receipt_digest".to_owned(), serde_json::Value::from(original.digest.as_str()));
    object.insert("money_movement_id".to_owned(), serde_json::Value::from("charge"));
    object.insert("provider_proof_ref".to_owned(), serde_json::Value::from("proof:charge"));
    object.insert("history".to_owned(), serde_json::Value::Array(entries));
    let bytes = serde_json::to_vec(&serde_json::Value::Object(object)).expect("json");
    let hex: String = Sha256::digest(&bytes).iter().map(|b| format!("{b:02x}")).collect();
    format!("sha256:{hex}")
}

#[test]
fn refund_plan_receipt_proof() {
    let original = payment_receipt("charge", AuthorityVerb::Commit, "charge", 125, None);
    let prior = payment_receipt("prior-refund", AuthorityVerb::Reverse, "refund", 25, Some("charge"));
    let unrelated = payment_receipt("other", AuthorityVerb::Reverse, "refund", 40, Some("elsewhere"));
    let store = vec![original.clone(), prior, unrelated];
    let first = resolve_refund_proof(&original, &store).expect("verified refund proof");
    let second = resolve_refund_proof(&original, &store).expect("stable verified refund proof");
    assert_eq!(first, second);
    assert_eq!(first.charge.amount_minor, 125);
    assert_eq!(first.charge.refunded_minor, 25);
    assert_eq!(first.charge.money_movement_id, "charge");
    assert_eq!(first.charge.rail, "mock");
    assert_eq!(first.charge.payer_ref, "payer:demo");
    assert_eq!(first.history_receipt_refs, vec!["prior-refund".to_owned()]);
    assert_eq!(first.proof_digest, expected_digest(&original, &[("prior-refund", "sha256:prior-refund", 25)]));
}

#[test]
fn refunds_cannot_be_refunded_and_must_match_the_payment() {
    let refund = payment_receipt("r", AuthorityVerb::Reverse, "refund", 5, None);
    let mut as_commit = refund.clone();
    as_commit.terms[0].verbs = vec![AuthorityVerb::Commit];
    assert_eq!(
        resolve_refund_proof(&as_commit, &vec![]),
        Err("original payment receipt must describe a charge, not another refund".to_owned())
    );
    let original = payment_receipt("charge", AuthorityVerb::Commit, "charge", 125, None);
    let mut foreign = payment_receipt("foreign", AuthorityVerb::Reverse, "refund", 5, Some("charge"));
    foreign.terms[0].effect_limits[0].unit = "EUR".to_owned();
    assert_eq!(
        resolve_refund_proof(&original, &vec![foreign]),
        Err("refund receipt foreign does not match the original payment identity".to_owned())
    );
}

#[test]
fn refund_history_is_ordered_and_overflow_checked() {
    let original = payment_receipt("charge", AuthorityVerb::Commit, "charge", 125, None);
    let projection = payment_projection(&original, AuthorityVerb::Commit).expect("projection");
    let b = payment_receipt("b-refund", AuthorityVerb::Reverse, "refund", 7, Some("charge"));
    let a = payment_receipt("a-refund", AuthorityVerb::Reverse, "refund", 3, Some("charge"));
    let history = verified_refund_history(&vec![b, a], &original, &projection).expect("history");
    assert_eq!(history.refunded_minor, 10);
    assert_eq!(history.entries[0].0, "a-refund");
    assert_eq!(history.entries[1].0, "b-refund");
    let big1 = payment_receipt("x", AuthorityVerb::Reverse, "refund", u64::MAX, Some("charge"));
    let big2 = payment_receipt("y", AuthorityVerb::Reverse, "refund", 1, Some("charge"));
    assert_eq!(
        verified_refund_history(&vec![big1, big2], &original, &projection),
        Err("verified refund history amount overflowed".to_owned())
    );
}

#[test]
fn the_tightest_payment_authority_is_used() {
    let mut receipt = payment_receipt("charge", AuthorityVerb::Commit, "charge", 125, None);
    receipt.terms.insert(0, AuthorityTerm { verbs: vec![AuthorityVerb::Commit], effect_limits: vec![limit("charge", None, &["mock"])] });
    receipt.terms.push(AuthorityTerm { verbs: vec![AuthorityVerb::Commit], effect_limits: vec![limit("charge", Some(125), &["mock", "card"])] });
    receipt.terms.push(AuthorityTerm { verbs: vec![AuthorityVerb::Read], effect_limits: vec![limit("charge", Some(1), &["mock"])] });
    assert_eq!(validated_payment_limit(&receipt, AuthorityVerb::Commit), Ok(1));
    assert_eq!(
        validated_payment_limit(&receipt, AuthorityVerb::Reverse),
        Err("payment receipt charge has no bounded Reverse authority".to_owned())
    );
    receipt.terms[1].effect_limits[0].recovery_required = false;
    assert_eq!(
        validated_payment_limit(&receipt, AuthorityVerb::Commit),
        Err("payment receipt charge lacks required finality controls".to_owned())
    );
}

#[test]
fn payment_receipts_must_bind_one_rail_proof_and_movement() {
    let mut receipt = payment_receipt("charge", AuthorityVerb::Commit, "charge", 125, None);
    receipt.closed = false;
    assert_eq!(
        payment_projection(&receipt, AuthorityVerb::Commit),
        Err("payment receipt charge is not closed".to_owned())
    );
    let mut two_rails = payment_receipt("charge", AuthorityVerb::Commit, "charge", 125, None);
    two_rails.terms[0].effect_limits[0].channels.push("card".to_owned());
    assert_eq!(
        payment_projection(&two_rails, AuthorityVerb::Commit),
        Err("payment receipt charge must bind exactly one rail".to_owned())
    );
    let mut no_proof = payment_receipt("charge", AuthorityVerb::Commit, "charge", 125, None);
    no_proof.acts[0].criterion_verification_refs[0].remove(0);
    assert_eq!(
        payment_projection(&no_proof, AuthorityVerb::Commit),
        Err("payment receipt charge must contain exactly one provider effect proof reference".to_owned())
    );
    let mut empty_movement = payment_receipt("charge", AuthorityVerb::Commit, "charge", 125, None);
    empty_movement.acts[0].criterion_verification_refs[0][1].uri = "runx:money_movement:".to_owned();
    assert_eq!(
        payment_projection(&empty_movement, AuthorityVerb::Commit),
        Err("payment receipt money movement reference is malformed".to_owned())
    );
}
