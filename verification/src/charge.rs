//! The provider-charge protocol: a price for a tool call under a provider
//! policy, the challenge that asks for payment of it, the verification
//! request for the credential returned, and the plan that binds them, each
//! identified or bound by the SHA-256 digest of its compact JSON text and
//! each ready only when nothing was found against it.
//!
//! Admission of an opaque field (its length bounds, whether it is
//! required), the reading of an amount or an expiry, and the findings a
//! packet already carries are the caller's; they arrive here as their
//! outcomes: the values kept and the findings raised. The JSON form of a
//! finding is the caller's too: findings travel beside the packets.
use vstd::prelude::*;

use crate::json::{JsonModel, JsonNumber, JsonObject, JsonValue, json_model, lookup};
use crate::export_shim::{json_quote, json_string_literal};
use crate::json_text::{json_text, json_text_of, opt_view};
use crate::package_source::{hex_lower, sha256_digest, sha256_hex};
use crate::text::{concat, is_blank, owned, seq_less, string_views, trim, trim_spec};

verus! {

/// A planning finding: the input path and what is wrong there.
pub struct Finding {
    pub path: String,
    pub message: String,
}

pub open spec fn finding_view(f: Finding) -> (Seq<char>, Seq<char>) {
    (f.path@, f.message@)
}

pub open spec fn findings_view(v: Seq<Finding>) -> Seq<(Seq<char>, Seq<char>)> {
    v.map_values(|f: Finding| finding_view(f))
}

/// An opaque field as admission left it: the value kept, if any, and the
/// findings admission raised on it.
pub struct Admitted {
    pub value: Option<String>,
    pub findings: Vec<Finding>,
}

/// A list of opaque values as admission left it.
pub struct AdmittedList {
    pub values: Vec<String>,
    pub findings: Vec<Finding>,
}

/// The admitted fields of a price request: the tool call's operation, and
/// the policy's amount, currency, settlement families, counterparty, realm
/// and reference; and whether its expiry, when given, reads as an
/// ISO-8601 UTC timestamp.
pub struct PriceAdmission {
    pub operation: Admitted,
    pub price_minor: Option<u64>,
    pub currency: Admitted,
    pub settlement_families: AdmittedList,
    pub counterparty: Admitted,
    pub realm: Admitted,
    pub expires_at_well_formed: bool,
    pub policy_ref: Admitted,
}

/// The price packet: the price itself, the payment authority it asks for,
/// the evidence of its sources, the policy metadata, and the findings that
/// keep it blocked.
pub struct ChargePricePacket {
    pub charge_price: JsonObject,
    pub requested_payment_authority: JsonObject,
    pub price_evidence: JsonObject,
    pub policy_metadata: JsonObject,
    pub open_questions: Vec<Finding>,
}

/// The model of a price packet.
pub struct PricePacketModel {
    pub charge_price: Seq<(Seq<char>, JsonModel)>,
    pub requested_payment_authority: Seq<(Seq<char>, JsonModel)>,
    pub price_evidence: Seq<(Seq<char>, JsonModel)>,
    pub policy_metadata: Seq<(Seq<char>, JsonModel)>,
    pub open_questions: Seq<(Seq<char>, Seq<char>)>,
}

pub open spec fn opt_str_model(o: Option<Seq<char>>) -> JsonModel {
    match o {
        Some(s) => JsonModel::Str(s),
        None => JsonModel::Null,
    }
}

pub open spec fn opt_int_model(o: Option<u64>) -> JsonModel {
    match o {
        Some(n) => JsonModel::Int(n as int),
        None => JsonModel::Null,
    }
}

pub open spec fn str_array_model(s: Seq<Seq<char>>) -> JsonModel {
    JsonModel::Array(s.map_values(|x: Seq<char>| JsonModel::Str(x)))
}

/// The lowercase hex SHA-256 of a text's UTF-8 bytes.
pub open spec fn text_digest(t: Seq<char>) -> Seq<char> {
    hex_lower(sha256_digest(vstd::utf8::encode_utf8(t)))
}

fn copy_finding(f: &Finding) -> (r: Finding)
    ensures
        finding_view(r) == finding_view(*f),
{
    Finding { path: owned(f.path.as_str()), message: owned(f.message.as_str()) }
}

fn new_finding(path: &str, message: &str) -> (r: Finding)
    ensures
        finding_view(r) == (path@, message@),
{
    Finding { path: owned(path), message: owned(message) }
}

/// Appends copies of `src` to `out`.
pub fn append_findings(out: &mut Vec<Finding>, src: &Vec<Finding>)
    ensures
        findings_view(final(out)@) == findings_view(old(out)@) + findings_view(src@),
{
    let ghost start = findings_view(out@);
    let mut i: usize = 0;
    while i < src.len()
        invariant
            i <= src@.len(),
            findings_view(out@) == start + findings_view(src@.subrange(0, i as int)),
        decreases src.len() - i,
    {
        let f = copy_finding(&src[i]);
        let ghost before = out@;
        out.push(f);
        proof {
            assert(findings_view(out@) =~= findings_view(before).push(finding_view(src@[i as int])));
            assert(findings_view(src@.subrange(0, i + 1)) =~= findings_view(
                src@.subrange(0, i as int),
            ).push(finding_view(src@[i as int])));
            assert(findings_view(out@) =~= start + findings_view(src@.subrange(0, i + 1)));
        }
        i = i + 1;
    }
    assert(src@.subrange(0, src@.len() as int) =~= src@);
}

fn push_finding(out: &mut Vec<Finding>, path: &str, message: &str)
    ensures
        findings_view(final(out)@) == findings_view(old(out)@).push((path@, message@)),
{
    let f = new_finding(path, message);
    out.push(f);
    assert(findings_view(out@) =~= findings_view(old(out)@).push((path@, message@)));
}

fn opt_str_json(o: &Option<String>) -> (r: JsonValue)
    ensures
        r@ == opt_str_model(opt_view(*o)),
{
    match o {
        Some(s) => JsonValue::String(owned(s.as_str())),
        None => JsonValue::Null,
    }
}

fn opt_u64_json(o: Option<u64>) -> (r: JsonValue)
    ensures
        r@ == opt_int_model(o),
{
    match o {
        Some(n) => JsonValue::Number(JsonNumber::U64(n)),
        None => JsonValue::Null,
    }
}

fn str_json(s: &str) -> (r: JsonValue)
    ensures
        r@ == JsonModel::Str(s@),
{
    JsonValue::String(owned(s))
}

fn str_array_json(v: &Vec<String>) -> (r: JsonValue)
    ensures
        r@ == str_array_model(string_views(v@)),
{
    let mut items: Vec<JsonValue> = Vec::new();
    let mut i: usize = 0;
    while i < v.len()
        invariant
            i <= v@.len(),
            items@.len() == i,
            forall|j: int| 0 <= j < i ==> #[trigger] items@[j]@ == JsonModel::Str(v@[j]@),
        decreases v.len() - i,
    {
        items.push(str_json(v[i].as_str()));
        i = i + 1;
    }
    proof {
        crate::json::lemma_array_model(items);
        let m = json_model(JsonValue::Array(items))->Array_0;
        assert forall|j: int| 0 <= j < m.len() implies m[j] == string_views(v@).map_values(
            |x: Seq<char>| JsonModel::Str(x),
        )[j] by {
            assert(m[j] == json_model(items@[j]));
            assert(items@[j]@ == JsonModel::Str(v@[j]@));
            assert(string_views(v@)[j] == v@[j]@);
        }
        assert(m =~= string_views(v@).map_values(|x: Seq<char>| JsonModel::Str(x)));
    }
    JsonValue::Array(items)
}

/// The tool call's arguments, when they are an object.
pub open spec fn arguments_object(call: Seq<(Seq<char>, JsonModel)>) -> Option<
    Seq<(Seq<char>, JsonModel)>,
> {
    match lookup(call, "arguments"@) {
        Some(JsonModel::Object(e)) => Some(e),
        _ => None,
    }
}

/// The policy's expiry, trimmed, when it is a non-blank string.
pub open spec fn expires_at_spec(policy: Seq<(Seq<char>, JsonModel)>) -> Option<Seq<char>> {
    match lookup(policy, "expires_at"@) {
        Some(JsonModel::Str(s)) => if trim_spec(s).len() > 0 {
            Some(trim_spec(s))
        } else {
            None
        },
        _ => None,
    }
}

/// A price amount counts only when positive.
pub open spec fn positive_amount(p: Option<u64>) -> Option<u64> {
    match p {
        Some(a) => if a > 0 {
            Some(a)
        } else {
            None
        },
        None => None,
    }
}

/// An ISO 4217 code: three uppercase ASCII letters. (The same as three
/// bytes that are all uppercase ASCII letters.)
pub open spec fn currency_code(c: Seq<char>) -> bool {
    c.len() == 3 && forall|i: int| 0 <= i < 3 ==> crate::text::is_ascii_upper(#[trigger] c[i])
}

pub open spec fn realm_spec(adm: PriceAdmission) -> Seq<char> {
    match adm.realm.value {
        Some(r) => r@,
        None => "local"@,
    }
}

/// The fields that identify a price, in key order.
pub open spec fn price_core(
    policy: Seq<(Seq<char>, JsonModel)>,
    adm: PriceAdmission,
) -> Seq<(Seq<char>, JsonModel)> {
    seq![
        ("amount_minor"@, opt_int_model(positive_amount(adm.price_minor))),
        ("counterparty"@, opt_str_model(opt_view(adm.counterparty.value))),
        ("currency"@, opt_str_model(opt_view(adm.currency.value))),
        ("expires_at"@, opt_str_model(expires_at_spec(policy))),
        ("operation"@, opt_str_model(opt_view(adm.operation.value))),
        ("realm"@, JsonModel::Str(realm_spec(adm))),
        ("settlement_families"@, str_array_model(string_views(adm.settlement_families.values@))),
    ]
}

/// Two keys that agree before position `n` and differ there are ordered by
/// the characters at `n`.
proof fn lemma_key_order(a: Seq<char>, b: Seq<char>, n: int)
    requires
        0 <= n < a.len(),
        n < b.len(),
        forall|i: int| 0 <= i < n ==> a[i] == b[i],
        (a[n] as u32) < (b[n] as u32),
    ensures
        seq_less(a, b),
    decreases n,
{
    if n > 0 {
        assert(a[0] == b[0]);
        lemma_key_order(a.drop_first(), b.drop_first(), n - 1);
    }
}

fn key(s: &str) -> (r: String)
    ensures
        r@ == s@,
{
    owned(s)
}

/// Whether `c` is three uppercase ASCII letters.
pub fn is_currency_code(c: &str) -> (r: bool)
    ensures
        r == currency_code(c@),
{
    let v = crate::text::chars_of(c);
    if v.len() != 3 {
        return false;
    }
    let mut i: usize = 0;
    while i < 3
        invariant
            v@ == c@,
            v@.len() == 3,
            i <= 3,
            forall|j: int| 0 <= j < i ==> crate::text::is_ascii_upper(#[trigger] c@[j]),
        decreases 3 - i,
    {
        if !('A' <= v[i] && v[i] <= 'Z') {
            return false;
        }
        i = i + 1;
    }
    true
}

/// The policy's expiry, trimmed, when it is a non-blank string.
pub fn policy_expiry(policy: &JsonObject) -> (r: Option<String>)
    ensures
        opt_view(r) == expires_at_spec(policy@),
{
    match policy.get("expires_at") {
        Some(v) => match v.as_str() {
            Some(s) => if is_blank(s.as_str()) {
                None
            } else {
                Some(trim(s.as_str()))
            },
            None => None,
        },
        None => None,
    }
}

fn price_core_object(
    policy: &JsonObject,
    adm: &PriceAdmission,
    amount: Option<u64>,
    expires_at: &Option<String>,
    realm: &str,
) -> (r: JsonObject)
    requires
        amount == positive_amount(adm.price_minor),
        opt_view(*expires_at) == expires_at_spec(policy@),
        realm@ == realm_spec(*adm),
    ensures
        r@ == price_core(policy@, *adm),
{
    proof {
        reveal_strlit("amount_minor");
        reveal_strlit("counterparty");
        reveal_strlit("currency");
        reveal_strlit("expires_at");
        reveal_strlit("operation");
        reveal_strlit("realm");
        reveal_strlit("settlement_families");
        lemma_key_order("amount_minor"@, "counterparty"@, 0);
        lemma_key_order("counterparty"@, "currency"@, 1);
        lemma_key_order("currency"@, "expires_at"@, 0);
        lemma_key_order("expires_at"@, "operation"@, 0);
        lemma_key_order("operation"@, "realm"@, 0);
        lemma_key_order("realm"@, "settlement_families"@, 0);
    }
    let mut o = JsonObject::new();
    o.push_last(key("amount_minor"), opt_u64_json(amount));
    o.push_last(key("counterparty"), opt_str_json(&adm.counterparty.value));
    o.push_last(key("currency"), opt_str_json(&adm.currency.value));
    o.push_last(key("expires_at"), opt_str_json(expires_at));
    o.push_last(key("operation"), opt_str_json(&adm.operation.value));
    o.push_last(key("realm"), str_json(realm));
    o.push_last(key("settlement_families"), str_array_json(&adm.settlement_families.values));
    assert(o@ =~= price_core(policy@, *adm));
    o
}

/// The findings of a price request, in the order they are raised.
pub open spec fn price_findings(
    call: Seq<(Seq<char>, JsonModel)>,
    policy: Seq<(Seq<char>, JsonModel)>,
    adm: PriceAdmission,
) -> Seq<(Seq<char>, Seq<char>)> {
    findings_view(adm.operation.findings@) + (if arguments_object(call) is None {
        seq![("mcp_tool_call.arguments"@, "mcp_tool_call.arguments must be an object"@)]
    } else {
        Seq::empty()
    }) + (if positive_amount(adm.price_minor) is None {
        seq![
            (
                "provider_policy.price_minor"@,
                "provider_policy.price_minor must be a positive safe integer"@,
            ),
        ]
    } else {
        Seq::empty()
    }) + findings_view(adm.currency.findings@) + (if opt_view(adm.currency.value) matches Some(
        c,
    ) && !currency_code(c) {
        seq![
            (
                "provider_policy.currency"@,
                "provider_policy.currency must be an uppercase ISO 4217 code"@,
            ),
        ]
    } else {
        Seq::empty()
    }) + findings_view(adm.settlement_families.findings@) + (
    if adm.settlement_families.values@.len() == 0 {
        seq![
            (
                "provider_policy.accepted_settlement_families"@,
                "at least one settlement family is required"@,
            ),
        ]
    } else {
        Seq::empty()
    }) + findings_view(adm.counterparty.findings@) + findings_view(adm.realm.findings@) + (
    if expires_at_spec(policy) is Some && !adm.expires_at_well_formed {
        seq![
            (
                "provider_policy.expires_at"@,
                "provider_policy.expires_at must be an ISO-8601 UTC timestamp"@,
            ),
        ]
    } else {
        Seq::empty()
    }) + findings_view(adm.policy_ref.findings@)
}

/// `ready` with no findings, else `blocked`.
pub open spec fn price_decision(findings: Seq<(Seq<char>, Seq<char>)>) -> Seq<char> {
    if findings.len() == 0 {
        "ready"@
    } else {
        "blocked"@
    }
}

/// The price: its identifying fields, with its decision and identifier.
pub open spec fn charge_price_object(
    policy: Seq<(Seq<char>, JsonModel)>,
    adm: PriceAdmission,
    decision: Seq<char>,
    price_id: Seq<char>,
) -> Seq<(Seq<char>, JsonModel)> {
    let c = price_core(policy, adm);
    seq![
        c[0],
        c[1],
        c[2],
        ("decision"@, JsonModel::Str(decision)),
        c[3],
        c[4],
        ("price_id"@, JsonModel::Str(price_id)),
        c[5],
        c[6],
    ]
}

/// The one payment limit the price asks authority for.
pub open spec fn payment_limit_model(adm: PriceAdmission) -> JsonModel {
    JsonModel::Object(
        seq![
            ("channels"@, str_array_model(string_views(adm.settlement_families.values@))),
            ("family"@, JsonModel::Str("payment"@)),
            ("idempotency_required"@, JsonModel::Bool(true)),
            ("max_per_call_units"@, opt_int_model(positive_amount(adm.price_minor))),
            ("operation"@, opt_str_model(opt_view(adm.operation.value))),
            ("peer"@, opt_str_model(opt_view(adm.counterparty.value))),
            ("realm"@, JsonModel::Str(realm_spec(adm))),
            ("receipt_before_success"@, JsonModel::Bool(true)),
            ("unit"@, opt_str_model(opt_view(adm.currency.value))),
        ],
    )
}

/// The authority the price asks for: to verify one payment effect within
/// its limit.
pub open spec fn requested_authority(adm: PriceAdmission) -> Seq<(Seq<char>, JsonModel)> {
    seq![
        (
            "bounds"@,
            JsonModel::Object(
                seq![("effect_limits"@, JsonModel::Array(seq![payment_limit_model(adm)]))],
            ),
        ),
        ("resource_family"@, JsonModel::Str("effect"@)),
        ("verbs"@, JsonModel::Array(seq![JsonModel::Str("verify"@)])),
    ]
}

/// The evidence of a price's sources.
pub open spec fn price_evidence_object(
    policy_source: Seq<char>,
    tool_source: Seq<char>,
    arguments_digest: Seq<char>,
) -> Seq<(Seq<char>, JsonModel)> {
    seq![
        ("arguments_digest"@, JsonModel::Str(arguments_digest)),
        (
            "source_refs"@,
            JsonModel::Array(seq![JsonModel::Str(policy_source), JsonModel::Str(tool_source)]),
        ),
    ]
}

pub open spec fn policy_metadata_object(adm: PriceAdmission) -> Seq<(Seq<char>, JsonModel)> {
    seq![
        ("direction"@, JsonModel::Str("provider_charge"@)),
        ("provider_realm"@, JsonModel::Str(realm_spec(adm))),
    ]
}

/// The arguments that the argument digest covers: the call's argument
/// object, or an empty one.
pub open spec fn digested_arguments(call: Seq<(Seq<char>, JsonModel)>) -> Seq<
    (Seq<char>, JsonModel),
> {
    match arguments_object(call) {
        Some(e) => e,
        None => Seq::empty(),
    }
}

/// The price packet of a request. The price is identified by the digest of
/// its identifying fields; the policy is cited by its reference or else by
/// its digest, the tool call by its digest; the arguments are bound by
/// theirs. None when the policy or the call holds a float, whose digits are
/// the JSON writer's own.
pub open spec fn charge_price_spec(
    call: Seq<(Seq<char>, JsonModel)>,
    policy: Seq<(Seq<char>, JsonModel)>,
    adm: PriceAdmission,
) -> Option<PricePacketModel> {
    match (
        json_text(JsonModel::Object(price_core(policy, adm))),
        json_text(JsonModel::Object(policy)),
        json_text(JsonModel::Object(call)),
        json_text(JsonModel::Object(digested_arguments(call))),
    ) {
        (Some(core_t), Some(policy_t), Some(call_t), Some(args_t)) => {
            let findings = price_findings(call, policy, adm);
            let price_id = "charge-price:"@ + text_digest(core_t);
            let policy_source = match opt_view(adm.policy_ref.value) {
                Some(r) => r,
                None => "policy:sha256:"@ + text_digest(policy_t),
            };
            Some(
                PricePacketModel {
                    charge_price: charge_price_object(
                        policy,
                        adm,
                        price_decision(findings),
                        price_id,
                    ),
                    requested_payment_authority: requested_authority(adm),
                    price_evidence: price_evidence_object(
                        policy_source,
                        "tool-call:sha256:"@ + text_digest(call_t),
                        "sha256:"@ + text_digest(args_t),
                    ),
                    policy_metadata: policy_metadata_object(adm),
                    open_questions: findings,
                },
            )
        },
        _ => None,
    }
}

pub open spec fn packet_view(p: ChargePricePacket) -> PricePacketModel {
    PricePacketModel {
        charge_price: p.charge_price@,
        requested_payment_authority: p.requested_payment_authority@,
        price_evidence: p.price_evidence@,
        policy_metadata: p.policy_metadata@,
        open_questions: findings_view(p.open_questions@),
    }
}

fn single_array(x: JsonValue) -> (r: JsonValue)
    ensures
        r@ == JsonModel::Array(seq![x@]),
{
    let ghost m = x@;
    let mut v: Vec<JsonValue> = Vec::new();
    v.push(x);
    proof {
        crate::json::lemma_array_model(v);
        assert(json_model(JsonValue::Array(v))->Array_0 =~= seq![m]);
    }
    JsonValue::Array(v)
}

fn pair_array(x: JsonValue, y: JsonValue) -> (r: JsonValue)
    ensures
        r@ == JsonModel::Array(seq![x@, y@]),
{
    let ghost mx = x@;
    let ghost my = y@;
    let mut v: Vec<JsonValue> = Vec::new();
    v.push(x);
    v.push(y);
    proof {
        crate::json::lemma_array_model(v);
        assert(json_model(JsonValue::Array(v))->Array_0 =~= seq![mx, my]);
    }
    JsonValue::Array(v)
}

fn charge_price_json(
    policy: &JsonObject,
    adm: &PriceAdmission,
    amount: Option<u64>,
    expires_at: &Option<String>,
    realm: &str,
    decision: &str,
    price_id: &str,
) -> (r: JsonObject)
    requires
        amount == positive_amount(adm.price_minor),
        opt_view(*expires_at) == expires_at_spec(policy@),
        realm@ == realm_spec(*adm),
    ensures
        r@ == charge_price_object(policy@, *adm, decision@, price_id@),
{
    proof {
        reveal_strlit("amount_minor");
        reveal_strlit("counterparty");
        reveal_strlit("currency");
        reveal_strlit("decision");
        reveal_strlit("expires_at");
        reveal_strlit("operation");
        reveal_strlit("price_id");
        reveal_strlit("realm");
        reveal_strlit("settlement_families");
        lemma_key_order("amount_minor"@, "counterparty"@, 0);
        lemma_key_order("counterparty"@, "currency"@, 1);
        lemma_key_order("currency"@, "decision"@, 0);
        lemma_key_order("decision"@, "expires_at"@, 0);
        lemma_key_order("expires_at"@, "operation"@, 0);
        lemma_key_order("operation"@, "price_id"@, 0);
        lemma_key_order("price_id"@, "realm"@, 0);
        lemma_key_order("realm"@, "settlement_families"@, 0);
    }
    let mut o = JsonObject::new();
    o.push_last(key("amount_minor"), opt_u64_json(amount));
    o.push_last(key("counterparty"), opt_str_json(&adm.counterparty.value));
    o.push_last(key("currency"), opt_str_json(&adm.currency.value));
    o.push_last(key("decision"), str_json(decision));
    o.push_last(key("expires_at"), opt_str_json(expires_at));
    o.push_last(key("operation"), opt_str_json(&adm.operation.value));
    o.push_last(key("price_id"), str_json(price_id));
    o.push_last(key("realm"), str_json(realm));
    o.push_last(key("settlement_families"), str_array_json(&adm.settlement_families.values));
    assert(o@ =~= charge_price_object(policy@, *adm, decision@, price_id@));
    o
}

fn payment_limit_json(adm: &PriceAdmission, amount: Option<u64>, realm: &str) -> (r: JsonValue)
    requires
        amount == positive_amount(adm.price_minor),
        realm@ == realm_spec(*adm),
    ensures
        r@ == payment_limit_model(*adm),
{
    proof {
        reveal_strlit("channels");
        reveal_strlit("family");
        reveal_strlit("idempotency_required");
        reveal_strlit("max_per_call_units");
        reveal_strlit("operation");
        reveal_strlit("peer");
        reveal_strlit("realm");
        reveal_strlit("receipt_before_success");
        reveal_strlit("unit");
        lemma_key_order("channels"@, "family"@, 0);
        lemma_key_order("family"@, "idempotency_required"@, 0);
        lemma_key_order("idempotency_required"@, "max_per_call_units"@, 0);
        lemma_key_order("max_per_call_units"@, "operation"@, 0);
        lemma_key_order("operation"@, "peer"@, 0);
        lemma_key_order("peer"@, "realm"@, 0);
        lemma_key_order("realm"@, "receipt_before_success"@, 2);
        lemma_key_order("receipt_before_success"@, "unit"@, 0);
    }
    let mut o = JsonObject::new();
    o.push_last(key("channels"), str_array_json(&adm.settlement_families.values));
    o.push_last(key("family"), str_json("payment"));
    o.push_last(key("idempotency_required"), JsonValue::Bool(true));
    o.push_last(key("max_per_call_units"), opt_u64_json(amount));
    o.push_last(key("operation"), opt_str_json(&adm.operation.value));
    o.push_last(key("peer"), opt_str_json(&adm.counterparty.value));
    o.push_last(key("realm"), str_json(realm));
    o.push_last(key("receipt_before_success"), JsonValue::Bool(true));
    o.push_last(key("unit"), opt_str_json(&adm.currency.value));
    let ghost e = o@;
    assert(JsonModel::Object(e) == payment_limit_model(*adm)) by {
        assert(e =~= payment_limit_model(*adm)->Object_0);
    }
    JsonValue::Object(o)
}

fn requested_authority_json(adm: &PriceAdmission, amount: Option<u64>, realm: &str) -> (r: JsonObject)
    requires
        amount == positive_amount(adm.price_minor),
        realm@ == realm_spec(*adm),
    ensures
        r@ == requested_authority(*adm),
{
    proof {
        reveal_strlit("bounds");
        reveal_strlit("resource_family");
        reveal_strlit("verbs");
        lemma_key_order("bounds"@, "resource_family"@, 0);
        lemma_key_order("resource_family"@, "verbs"@, 0);
    }
    let mut bounds = JsonObject::new();
    bounds.push_last(key("effect_limits"), single_array(payment_limit_json(adm, amount, realm)));
    let mut o = JsonObject::new();
    o.push_last(key("bounds"), JsonValue::Object(bounds));
    o.push_last(key("resource_family"), str_json("effect"));
    o.push_last(key("verbs"), single_array(str_json("verify")));
    assert(o@ =~= requested_authority(*adm));
    o
}

fn price_evidence_json(policy_source: &str, tool_source: &str, arguments_digest: &str) -> (r:
    JsonObject)
    ensures
        r@ == price_evidence_object(policy_source@, tool_source@, arguments_digest@),
{
    proof {
        reveal_strlit("arguments_digest");
        reveal_strlit("source_refs");
        lemma_key_order("arguments_digest"@, "source_refs"@, 0);
    }
    let mut o = JsonObject::new();
    o.push_last(key("arguments_digest"), str_json(arguments_digest));
    o.push_last(key("source_refs"), pair_array(str_json(policy_source), str_json(tool_source)));
    assert(o@ =~= price_evidence_object(policy_source@, tool_source@, arguments_digest@));
    o
}

fn policy_metadata_json(adm: &PriceAdmission, realm: &str) -> (r: JsonObject)
    requires
        realm@ == realm_spec(*adm),
    ensures
        r@ == policy_metadata_object(*adm),
{
    proof {
        reveal_strlit("direction");
        reveal_strlit("provider_realm");
        lemma_key_order("direction"@, "provider_realm"@, 0);
    }
    let mut o = JsonObject::new();
    o.push_last(key("direction"), str_json("provider_charge"));
    o.push_last(key("provider_realm"), str_json(realm));
    assert(o@ =~= policy_metadata_object(*adm));
    o
}

/// The price packet of a request: `call` is the tool call, `policy` the
/// provider policy, `adm` what admission kept of their opaque fields. The
/// price is ready when nothing was found against it, and blocked
/// otherwise; either way it is fully formed, so what blocked it stays
/// visible beside it.
pub fn charge_price(call: &JsonObject, policy: &JsonObject, adm: &PriceAdmission) -> (r: Option<
    ChargePricePacket,
>)
    ensures
        match charge_price_spec(call@, policy@, *adm) {
            Some(m) => r matches Some(p) && packet_view(p) == m,
            None => r is None,
        },
{
    let mut findings: Vec<Finding> = Vec::new();
    append_findings(&mut findings, &adm.operation.findings);
    let arguments: Option<&JsonObject> = match call.get("arguments") {
        Some(v) => v.as_object(),
        None => None,
    };
    if arguments.is_none() {
        push_finding(
            &mut findings,
            "mcp_tool_call.arguments",
            "mcp_tool_call.arguments must be an object",
        );
    }
    let amount: Option<u64> = match adm.price_minor {
        Some(a) => if a > 0 {
            Some(a)
        } else {
            None
        },
        None => None,
    };
    if amount.is_none() {
        push_finding(
            &mut findings,
            "provider_policy.price_minor",
            "provider_policy.price_minor must be a positive safe integer",
        );
    }
    append_findings(&mut findings, &adm.currency.findings);
    let malformed = match &adm.currency.value {
        Some(c) => !is_currency_code(c.as_str()),
        None => false,
    };
    if malformed {
        push_finding(
            &mut findings,
            "provider_policy.currency",
            "provider_policy.currency must be an uppercase ISO 4217 code",
        );
    }
    append_findings(&mut findings, &adm.settlement_families.findings);
    if adm.settlement_families.values.len() == 0 {
        push_finding(
            &mut findings,
            "provider_policy.accepted_settlement_families",
            "at least one settlement family is required",
        );
    }
    append_findings(&mut findings, &adm.counterparty.findings);
    append_findings(&mut findings, &adm.realm.findings);
    let realm = match &adm.realm.value {
        Some(r) => owned(r.as_str()),
        None => owned("local"),
    };
    let expires_at = policy_expiry(policy);
    if expires_at.is_some() && !adm.expires_at_well_formed {
        push_finding(
            &mut findings,
            "provider_policy.expires_at",
            "provider_policy.expires_at must be an ISO-8601 UTC timestamp",
        );
    }
    append_findings(&mut findings, &adm.policy_ref.findings);
    assert(findings_view(findings@) =~= price_findings(call@, policy@, *adm));

    let core = price_core_object(policy, adm, amount, &expires_at, realm.as_str());
    let core_text = match json_text_of(&JsonValue::Object(core)) {
        Some(t) => t,
        None => {
            return None;
        },
    };
    let policy_text = match json_text_of(&JsonValue::Object(crate::json::clone_object(policy))) {
        Some(t) => t,
        None => {
            return None;
        },
    };
    let call_text = match json_text_of(&JsonValue::Object(crate::json::clone_object(call))) {
        Some(t) => t,
        None => {
            return None;
        },
    };
    let args = match arguments {
        Some(o) => crate::json::clone_object(o),
        None => JsonObject::new(),
    };
    assert(args@ == digested_arguments(call@));
    let args_text = match json_text_of(&JsonValue::Object(args)) {
        Some(t) => t,
        None => {
            return None;
        },
    };
    let price_id = concat("charge-price:", sha256_hex(core_text.as_str().as_bytes()).as_str());
    let policy_source = match &adm.policy_ref.value {
        Some(r) => owned(r.as_str()),
        None => concat("policy:sha256:", sha256_hex(policy_text.as_str().as_bytes()).as_str()),
    };
    let tool_source = concat("tool-call:sha256:", sha256_hex(call_text.as_str().as_bytes()).as_str());
    let arguments_digest = concat("sha256:", sha256_hex(args_text.as_str().as_bytes()).as_str());
    let decision = if findings.len() == 0 {
        "ready"
    } else {
        "blocked"
    };
    let packet = ChargePricePacket {
        charge_price: charge_price_json(
            policy,
            adm,
            amount,
            &expires_at,
            realm.as_str(),
            decision,
            price_id.as_str(),
        ),
        requested_payment_authority: requested_authority_json(adm, amount, realm.as_str()),
        price_evidence: price_evidence_json(
            policy_source.as_str(),
            tool_source.as_str(),
            arguments_digest.as_str(),
        ),
        policy_metadata: policy_metadata_json(adm, realm.as_str()),
        open_questions: findings,
    };
    Some(packet)
}

/// The challenge packet: the effect-required signal, the challenge, its
/// idempotency key, the settlement families it accepts, and the findings
/// that keep it blocked.
pub struct ChargeChallengePacket {
    pub effect_required_signal: JsonObject,
    pub charge_challenge: JsonObject,
    pub idempotency: JsonObject,
    pub accepted_settlement_families: JsonValue,
    pub open_questions: Vec<Finding>,
}

pub struct ChallengePacketModel {
    pub effect_required_signal: Seq<(Seq<char>, JsonModel)>,
    pub charge_challenge: Seq<(Seq<char>, JsonModel)>,
    pub idempotency: Seq<(Seq<char>, JsonModel)>,
    pub accepted_settlement_families: JsonModel,
    pub open_questions: Seq<(Seq<char>, Seq<char>)>,
}

pub open spec fn challenge_view(p: ChargeChallengePacket) -> ChallengePacketModel {
    ChallengePacketModel {
        effect_required_signal: p.effect_required_signal@,
        charge_challenge: p.charge_challenge@,
        idempotency: p.idempotency@,
        accepted_settlement_families: p.accepted_settlement_families@,
        open_questions: findings_view(p.open_questions@),
    }
}

/// The value under `k`, or null.
pub open spec fn value_or_null(o: Seq<(Seq<char>, JsonModel)>, k: Seq<char>) -> JsonModel {
    match lookup(o, k) {
        Some(m) => m,
        None => JsonModel::Null,
    }
}

/// The price's settlement families, when they are an array.
pub open spec fn price_families(price: Seq<(Seq<char>, JsonModel)>) -> Seq<JsonModel> {
    match lookup(price, "settlement_families"@) {
        Some(JsonModel::Array(items)) => items,
        _ => Seq::empty(),
    }
}

/// The rail a challenge names: the first settlement family, when it is a
/// string; else empty.
pub open spec fn rail_spec(price: Seq<(Seq<char>, JsonModel)>) -> Seq<char> {
    let f = price_families(price);
    if f.len() > 0 && f[0] is Str {
        f[0]->Str_0
    } else {
        Seq::empty()
    }
}

/// What identifies a challenge: its price and the idempotency seed.
pub open spec fn challenge_core(seed: Seq<char>, price_id: Seq<char>) -> JsonModel {
    JsonModel::Object(
        seq![("idempotency_seed"@, JsonModel::Str(seed)), ("price_id"@, JsonModel::Str(price_id))],
    )
}

/// The challenge identifier: the digest of its identifying fields.
pub open spec fn challenge_id_spec(seed: Seq<char>, price_id: Seq<char>) -> Seq<char> {
    "charge-challenge:"@ + text_digest(
        "{"@ + json_string_literal("idempotency_seed"@) + ":"@ + json_string_literal(seed) + ","@
            + json_string_literal("price_id"@) + ":"@ + json_string_literal(price_id) + "}"@,
    )
}

/// The challenge's findings: the packet's own, and one when the price is
/// not ready.
pub open spec fn challenge_findings(
    packet_findings: Seq<(Seq<char>, Seq<char>)>,
    price: Seq<(Seq<char>, JsonModel)>,
) -> Seq<(Seq<char>, Seq<char>)> {
    packet_findings + (if lookup(price, "decision"@) != Some(JsonModel::Str("ready"@)) {
        seq![("price.blocked"@, "charge price is not ready"@)]
    } else {
        Seq::empty()
    })
}

/// The challenge packet for a price. `packet_findings` are the findings
/// the price packet carries, `price` and `authority` its price and
/// requested authority, `price_id` the price's identifier.
pub open spec fn charge_challenge_spec(
    packet_findings: Seq<(Seq<char>, Seq<char>)>,
    price: Seq<(Seq<char>, JsonModel)>,
    authority: Seq<(Seq<char>, JsonModel)>,
    seed: Seq<char>,
    price_id: Seq<char>,
) -> ChallengePacketModel {
    let findings = challenge_findings(packet_findings, price);
    let challenge_id = challenge_id_spec(seed, price_id);
    ChallengePacketModel {
        effect_required_signal: seq![
            ("amount_minor"@, value_or_null(price, "amount_minor"@)),
            ("challenge_id"@, JsonModel::Str(challenge_id)),
            ("counterparty"@, value_or_null(price, "counterparty"@)),
            ("currency"@, value_or_null(price, "currency"@)),
            ("operation"@, value_or_null(price, "operation"@)),
            ("rail"@, JsonModel::Str(rail_spec(price))),
            ("signal_type"@, JsonModel::Str("effect_required"@)),
        ],
        charge_challenge: seq![
            ("challenge_id"@, JsonModel::Str(challenge_id)),
            ("decision"@, JsonModel::Str(price_decision(findings))),
            ("price_id"@, JsonModel::Str(price_id)),
            ("receipt_before_forward_required"@, JsonModel::Bool(true)),
            ("required_authority"@, JsonModel::Object(authority)),
        ],
        idempotency: seq![
            ("key"@, JsonModel::Str("charge:"@ + seed)),
            ("replay_policy"@, JsonModel::Str("recover_or_refuse_duplicate"@)),
        ],
        accepted_settlement_families: JsonModel::Array(price_families(price)),
        open_questions: findings,
    }
}

fn empty_array() -> (r: JsonValue)
    ensures
        r@ == JsonModel::Array(Seq::empty()),
{
    let v: Vec<JsonValue> = Vec::new();
    proof {
        crate::json::lemma_array_model(v);
        assert(json_model(JsonValue::Array(v))->Array_0 =~= Seq::<JsonModel>::empty());
    }
    JsonValue::Array(v)
}

fn value_or_null_json(o: &JsonObject, k: &str) -> (r: JsonValue)
    ensures
        r@ == value_or_null(o@, k@),
{
    match o.get(k) {
        Some(v) => crate::json::clone_value(v),
        None => JsonValue::Null,
    }
}

fn challenge_id(seed: &str, price_id: &str) -> (r: String)
    ensures
        r@ == challenge_id_spec(seed@, price_id@),
{
    let mut text = owned("{");
    text.append(json_quote("idempotency_seed").as_str());
    text.append(":");
    text.append(json_quote(seed).as_str());
    text.append(",");
    text.append(json_quote("price_id").as_str());
    text.append(":");
    text.append(json_quote(price_id).as_str());
    text.append("}");
    concat("charge-challenge:", sha256_hex(text.as_str().as_bytes()).as_str())
}

/// The challenge packet for a price: it is identified by the price and
/// the idempotency seed, signals the effect that must be paid for, and is
/// ready only when the price is and nothing else was found.
pub fn charge_challenge(
    packet_findings: &Vec<Finding>,
    price: &JsonObject,
    authority: &JsonObject,
    seed: &str,
    price_id: &str,
) -> (r: ChargeChallengePacket)
    ensures
        challenge_view(r) == charge_challenge_spec(
            findings_view(packet_findings@),
            price@,
            authority@,
            seed@,
            price_id@,
        ),
{
    let mut findings: Vec<Finding> = Vec::new();
    append_findings(&mut findings, packet_findings);
    let ready_price = match price.get("decision") {
        Some(v) => match v.as_str() {
            Some(s) => crate::text::str_eq(s.as_str(), "ready"),
            None => false,
        },
        None => false,
    };
    if !ready_price {
        push_finding(&mut findings, "price.blocked", "charge price is not ready");
    }
    assert(findings_view(findings@) =~= challenge_findings(findings_view(packet_findings@), price@));
    let id = challenge_id(seed, price_id);
    proof {
        reveal_strlit("");
    }
    let (families, rail) = match price.get("settlement_families") {
        Some(v) => match v.as_array() {
            Some(items) => {
                let rail = if items.len() > 0 {
                    match items[0].as_str() {
                        Some(s) => owned(s.as_str()),
                        None => owned(""),
                    }
                } else {
                    owned("")
                };
                (crate::json::clone_value(v), rail)
            },
            None => (empty_array(), owned("")),
        },
        None => (empty_array(), owned("")),
    };
    proof {
        assert(families@ == JsonModel::Array(price_families(price@)));
        assert(rail@ == rail_spec(price@));
    }
    proof {
        reveal_strlit("amount_minor");
        reveal_strlit("challenge_id");
        reveal_strlit("counterparty");
        reveal_strlit("currency");
        reveal_strlit("operation");
        reveal_strlit("rail");
        reveal_strlit("signal_type");
        reveal_strlit("decision");
        reveal_strlit("price_id");
        reveal_strlit("receipt_before_forward_required");
        reveal_strlit("required_authority");
        reveal_strlit("key");
        reveal_strlit("replay_policy");
        lemma_key_order("amount_minor"@, "challenge_id"@, 0);
        lemma_key_order("challenge_id"@, "counterparty"@, 1);
        lemma_key_order("counterparty"@, "currency"@, 1);
        lemma_key_order("currency"@, "operation"@, 0);
        lemma_key_order("operation"@, "rail"@, 0);
        lemma_key_order("rail"@, "signal_type"@, 0);
        lemma_key_order("challenge_id"@, "decision"@, 0);
        lemma_key_order("decision"@, "price_id"@, 0);
        lemma_key_order("price_id"@, "receipt_before_forward_required"@, 0);
        lemma_key_order("receipt_before_forward_required"@, "required_authority"@, 2);
        lemma_key_order("key"@, "replay_policy"@, 0);
    }
    let mut signal = JsonObject::new();
    signal.push_last(key("amount_minor"), value_or_null_json(price, "amount_minor"));
    signal.push_last(key("challenge_id"), str_json(id.as_str()));
    signal.push_last(key("counterparty"), value_or_null_json(price, "counterparty"));
    signal.push_last(key("currency"), value_or_null_json(price, "currency"));
    signal.push_last(key("operation"), value_or_null_json(price, "operation"));
    signal.push_last(key("rail"), str_json(rail.as_str()));
    signal.push_last(key("signal_type"), str_json("effect_required"));
    let decision = if findings.len() == 0 {
        "ready"
    } else {
        "blocked"
    };
    let mut challenge = JsonObject::new();
    challenge.push_last(key("challenge_id"), str_json(id.as_str()));
    challenge.push_last(key("decision"), str_json(decision));
    challenge.push_last(key("price_id"), str_json(price_id));
    challenge.push_last(key("receipt_before_forward_required"), JsonValue::Bool(true));
    challenge.push_last(
        key("required_authority"),
        JsonValue::Object(crate::json::clone_object(authority)),
    );
    let mut idempotency = JsonObject::new();
    idempotency.push_last(key("key"), str_json(concat("charge:", seed).as_str()));
    idempotency.push_last(key("replay_policy"), str_json("recover_or_refuse_duplicate"));
    let r = ChargeChallengePacket {
        effect_required_signal: signal,
        charge_challenge: challenge,
        idempotency,
        accepted_settlement_families: families,
        open_questions: findings,
    };
    assert(challenge_view(r).effect_required_signal =~= charge_challenge_spec(
        findings_view(packet_findings@), price@, authority@, seed@, price_id@).effect_required_signal);
    assert(challenge_view(r).charge_challenge =~= charge_challenge_spec(
        findings_view(packet_findings@), price@, authority@, seed@, price_id@).charge_challenge);
    assert(challenge_view(r).idempotency =~= charge_challenge_spec(
        findings_view(packet_findings@), price@, authority@, seed@, price_id@).idempotency);
    r
}

/// The credential fields beyond its family and reference, in key order.
pub open spec fn extra_fields(keys: Seq<Seq<char>>) -> Seq<Seq<char>>
    decreases keys.len(),
{
    if keys.len() == 0 {
        Seq::empty()
    } else {
        let rest = extra_fields(keys.drop_last());
        let k = keys.last();
        if k == "family"@ || k == "credential_ref"@ {
            rest
        } else {
            rest.push(k)
        }
    }
}

/// The settlement families a challenge packet admits.
pub open spec fn admitted_families(challenge_packet: Seq<(Seq<char>, JsonModel)>) -> Seq<JsonModel> {
    match lookup(challenge_packet, "accepted_settlement_families"@) {
        Some(JsonModel::Array(items)) => items,
        _ => Seq::empty(),
    }
}

pub open spec fn family_admitted(challenge_packet: Seq<(Seq<char>, JsonModel)>, f: Seq<char>) -> bool {
    exists|i: int|
        0 <= i < admitted_families(challenge_packet).len() && #[trigger] admitted_families(
            challenge_packet,
        )[i] == JsonModel::Str(f)
}

/// The string under `k`, or empty.
pub open spec fn str_or_empty(o: Seq<(Seq<char>, JsonModel)>, k: Seq<char>) -> Seq<char> {
    match lookup(o, k) {
        Some(JsonModel::Str(s)) => s,
        _ => Seq::empty(),
    }
}

/// The admitted parts of a returned credential and of the verification it
/// asks for.
pub struct CredentialAdmission {
    pub settlement_family: Admitted,
    pub credential_family: Admitted,
    pub credential_ref: Admitted,
    pub verify_capability_ref: Admitted,
}

/// The findings of a verification request, in the order they are raised.
pub open spec fn verification_findings(
    packet_findings: Seq<(Seq<char>, Seq<char>)>,
    challenge_packet: Seq<(Seq<char>, JsonModel)>,
    challenge: Seq<(Seq<char>, JsonModel)>,
    credential: Seq<(Seq<char>, JsonModel)>,
    adm: CredentialAdmission,
) -> Seq<(Seq<char>, Seq<char>)> {
    let extras = extra_fields(crate::json::key_seq(credential));
    packet_findings + findings_view(adm.settlement_family.findings@) + findings_view(
        adm.credential_family.findings@,
    ) + findings_view(adm.credential_ref.findings@) + findings_view(
        adm.verify_capability_ref.findings@,
    ) + (if extras.len() > 0 {
        seq![
            (
                "credential.raw_fields"@,
                "returned_credential contains unsupported fields: "@ + crate::text::joined(
                    extras,
                    ", "@,
                ),
            ),
        ]
    } else {
        Seq::empty()
    }) + (if opt_view(adm.settlement_family.value) matches Some(f) && !family_admitted(
        challenge_packet,
        f,
    ) {
        seq![("family.not_admitted"@, "settlement family is not admitted by the challenge"@)]
    } else {
        Seq::empty()
    }) + (if opt_view(adm.settlement_family.value) != opt_view(adm.credential_family.value) {
        seq![
            ("family.mismatch"@, "credential family does not match selected settlement family"@),
        ]
    } else {
        Seq::empty()
    }) + (if lookup(challenge, "decision"@) != Some(JsonModel::Str("ready"@)) {
        seq![("challenge.blocked"@, "charge challenge is not ready"@)]
    } else {
        Seq::empty()
    })
}

/// What a verification request binds, in key order.
pub open spec fn verification_core(
    price: Seq<(Seq<char>, JsonModel)>,
    challenge: Seq<(Seq<char>, JsonModel)>,
    idempotency: Seq<(Seq<char>, JsonModel)>,
    adm: CredentialAdmission,
) -> Seq<(Seq<char>, JsonModel)> {
    seq![
        ("challenge_id"@, JsonModel::Str(str_or_empty(challenge, "challenge_id"@))),
        ("credential_ref"@, opt_str_model(opt_view(adm.credential_ref.value))),
        ("idempotency"@, JsonModel::Object(idempotency)),
        ("price_id"@, JsonModel::Str(str_or_empty(price, "price_id"@))),
        ("settlement_family"@, opt_str_model(opt_view(adm.settlement_family.value))),
        ("verify_capability_ref"@, opt_str_model(opt_view(adm.verify_capability_ref.value))),
    ]
}

/// The verification request packet: the request, the credential it binds,
/// the findings, and the states it leaves untouched (the provider not
/// called, no receipt sealed, nothing forwarded).
pub struct VerificationRequestPacket {
    pub verification_request: JsonObject,
    pub credential_binding: JsonObject,
    pub provider_status: String,
    pub receipt_status: String,
    pub forwarding_status: String,
    pub open_questions: Vec<Finding>,
}

pub struct VerificationPacketModel {
    pub verification_request: Seq<(Seq<char>, JsonModel)>,
    pub credential_binding: Seq<(Seq<char>, JsonModel)>,
    pub provider_status: Seq<char>,
    pub receipt_status: Seq<char>,
    pub forwarding_status: Seq<char>,
    pub open_questions: Seq<(Seq<char>, Seq<char>)>,
}

pub open spec fn verification_view(p: VerificationRequestPacket) -> VerificationPacketModel {
    VerificationPacketModel {
        verification_request: p.verification_request@,
        credential_binding: p.credential_binding@,
        provider_status: p.provider_status@,
        receipt_status: p.receipt_status@,
        forwarding_status: p.forwarding_status@,
        open_questions: findings_view(p.open_questions@),
    }
}

/// The verification request for a returned credential. The request binds
/// the price, the challenge, the selected family, the credential
/// reference, the verify capability and the idempotency record, and
/// carries the digest of that binding; it is ready for the provider
/// adapter only when nothing was found. None when the idempotency record
/// holds a float, whose digits are the JSON writer's own.
pub open spec fn verification_request_spec(
    packet_findings: Seq<(Seq<char>, Seq<char>)>,
    price: Seq<(Seq<char>, JsonModel)>,
    challenge_packet: Seq<(Seq<char>, JsonModel)>,
    challenge: Seq<(Seq<char>, JsonModel)>,
    credential: Seq<(Seq<char>, JsonModel)>,
    idempotency: Seq<(Seq<char>, JsonModel)>,
    adm: CredentialAdmission,
) -> Option<VerificationPacketModel> {
    let core = verification_core(price, challenge, idempotency, adm);
    match json_text(JsonModel::Object(core)) {
        Some(t) => {
            let findings = verification_findings(
                packet_findings,
                challenge_packet,
                challenge,
                credential,
                adm,
            );
            let decision = if findings.len() == 0 {
                "ready_for_provider_adapter"@
            } else {
                "blocked"@
            };
            Some(
                VerificationPacketModel {
                    verification_request: seq![
                        core[0],
                        core[1],
                        ("decision"@, JsonModel::Str(decision)),
                        core[2],
                        core[3],
                        ("request_digest"@, JsonModel::Str("sha256:"@ + text_digest(t))),
                        core[4],
                        core[5],
                    ],
                    credential_binding: seq![
                        ("credential_ref"@, opt_str_model(opt_view(adm.credential_ref.value))),
                        ("family"@, opt_str_model(opt_view(adm.credential_family.value))),
                    ],
                    provider_status: "not_called"@,
                    receipt_status: "not_sealed"@,
                    forwarding_status: "not_forwarded"@,
                    open_questions: findings,
                },
            )
        },
        None => None,
    }
}

fn str_or_empty_of(o: &JsonObject, k: &str) -> (r: String)
    ensures
        r@ == str_or_empty(o@, k@),
{
    proof {
        reveal_strlit("");
    }
    match o.get(k) {
        Some(v) => match v.as_str() {
            Some(s) => owned(s.as_str()),
            None => owned(""),
        },
        None => owned(""),
    }
}

fn opt_eq(a: &Option<String>, b: &Option<String>) -> (r: bool)
    ensures
        r == (opt_view(*a) == opt_view(*b)),
{
    match (a, b) {
        (Some(x), Some(y)) => crate::text::str_eq(x.as_str(), y.as_str()),
        (None, None) => true,
        _ => false,
    }
}

/// The credential's extra fields.
pub fn credential_extras(credential: &JsonObject) -> (r: Vec<String>)
    ensures
        string_views(r@) == extra_fields(crate::json::key_seq(credential@)),
{
    let keys = credential.keys();
    let ghost ks = crate::json::key_seq(credential@);
    assert(string_views(keys@) =~= ks);
    let mut out: Vec<String> = Vec::new();
    let mut i: usize = 0;
    while i < keys.len()
        invariant
            i <= keys@.len(),
            string_views(keys@) == ks,
            string_views(out@) == extra_fields(ks.subrange(0, i as int)),
        decreases keys.len() - i,
    {
        let k = &keys[i];
        proof {
            assert(ks.subrange(0, i + 1).drop_last() =~= ks.subrange(0, i as int));
            assert(ks[i as int] == k@);
        }
        let skip = crate::text::str_eq(k.as_str(), "family") || crate::text::str_eq(
            k.as_str(),
            "credential_ref",
        );
        if !skip {
            let ghost before = out@;
            out.push(owned(k.as_str()));
            assert(string_views(out@) =~= string_views(before).push(k@));
        }
        i = i + 1;
    }
    assert(ks.subrange(0, keys@.len() as int) =~= ks);
    out
}

/// Whether the challenge packet admits the family `f`.
pub fn is_family_admitted(challenge_packet: &JsonObject, f: &str) -> (r: bool)
    ensures
        r == family_admitted(challenge_packet@, f@),
{
    match challenge_packet.get("accepted_settlement_families") {
        Some(v) => match v.as_array() {
            Some(items) => {
                let ghost fams = admitted_families(challenge_packet@);
                let mut i: usize = 0;
                while i < items.len()
                    invariant
                        i <= items@.len(),
                        fams == admitted_families(challenge_packet@),
                        fams.len() == items@.len(),
                        forall|j: int| 0 <= j < items@.len() ==> #[trigger] fams[j] == items@[j]@,
                        forall|j: int| 0 <= j < i ==> fams[j] != JsonModel::Str(f@),
                    decreases items.len() - i,
                {
                    let hit = match items[i].as_str() {
                        Some(s) => crate::text::str_eq(s.as_str(), f),
                        None => false,
                    };
                    if hit {
                        assert(fams[i as int] == JsonModel::Str(f@));
                        assert(admitted_families(challenge_packet@)[i as int] == JsonModel::Str(f@));
                        return true;
                    }
                    i = i + 1;
                }
                false
            },
            None => false,
        },
        None => false,
    }
}

fn verification_core_json(
    price: &JsonObject,
    challenge: &JsonObject,
    idempotency: &JsonObject,
    adm: &CredentialAdmission,
    decision: Option<&str>,
    digest: Option<&str>,
) -> (r: JsonObject)
    requires
        decision is Some == digest is Some,
    ensures
        decision is None ==> r@ == verification_core(price@, challenge@, idempotency@, *adm),
        decision matches Some(d) ==> digest matches Some(g) && r@ == seq![
            verification_core(price@, challenge@, idempotency@, *adm)[0],
            verification_core(price@, challenge@, idempotency@, *adm)[1],
            ("decision"@, JsonModel::Str(d@)),
            verification_core(price@, challenge@, idempotency@, *adm)[2],
            verification_core(price@, challenge@, idempotency@, *adm)[3],
            ("request_digest"@, JsonModel::Str(g@)),
            verification_core(price@, challenge@, idempotency@, *adm)[4],
            verification_core(price@, challenge@, idempotency@, *adm)[5],
        ],
{
    proof {
        reveal_strlit("challenge_id");
        reveal_strlit("credential_ref");
        reveal_strlit("decision");
        reveal_strlit("idempotency");
        reveal_strlit("price_id");
        reveal_strlit("request_digest");
        reveal_strlit("settlement_family");
        reveal_strlit("verify_capability_ref");
        lemma_key_order("challenge_id"@, "credential_ref"@, 1);
        lemma_key_order("credential_ref"@, "decision"@, 0);
        lemma_key_order("credential_ref"@, "idempotency"@, 0);
        lemma_key_order("decision"@, "idempotency"@, 0);
        lemma_key_order("idempotency"@, "price_id"@, 0);
        lemma_key_order("price_id"@, "request_digest"@, 0);
        lemma_key_order("price_id"@, "settlement_family"@, 0);
        lemma_key_order("request_digest"@, "settlement_family"@, 0);
        lemma_key_order("settlement_family"@, "verify_capability_ref"@, 0);
    }
    let ghost c = verification_core(price@, challenge@, idempotency@, *adm);
    let mut o = JsonObject::new();
    o.push_last(key("challenge_id"), str_json(str_or_empty_of(challenge, "challenge_id").as_str()));
    o.push_last(key("credential_ref"), opt_str_json(&adm.credential_ref.value));
    match decision {
        Some(d) => o.push_last(key("decision"), str_json(d)),
        None => {},
    }
    o.push_last(key("idempotency"), JsonValue::Object(crate::json::clone_object(idempotency)));
    o.push_last(key("price_id"), str_json(str_or_empty_of(price, "price_id").as_str()));
    match digest {
        Some(g) => o.push_last(key("request_digest"), str_json(g)),
        None => {},
    }
    o.push_last(key("settlement_family"), opt_str_json(&adm.settlement_family.value));
    o.push_last(key("verify_capability_ref"), opt_str_json(&adm.verify_capability_ref.value));
    proof {
        if decision is None {
            assert(o@ =~= c);
        } else {
            assert(o@ =~= seq![
                c[0],
                c[1],
                ("decision"@, JsonModel::Str(decision->0@)),
                c[2],
                c[3],
                ("request_digest"@, JsonModel::Str(digest->0@)),
                c[4],
                c[5],
            ]);
        }
    }
    o
}

/// The verification request for a returned credential: `packet_findings`
/// are the findings the price and challenge packets carry, `price` and
/// `challenge` their price and challenge, `challenge_packet` the challenge
/// packet, `credential` the returned credential, `idempotency` the
/// idempotency record, `adm` what admission kept of the opaque fields.
pub fn charge_verification_request(
    packet_findings: &Vec<Finding>,
    price: &JsonObject,
    challenge_packet: &JsonObject,
    challenge: &JsonObject,
    credential: &JsonObject,
    idempotency: &JsonObject,
    adm: &CredentialAdmission,
) -> (r: Option<VerificationRequestPacket>)
    ensures
        match verification_request_spec(
            findings_view(packet_findings@),
            price@,
            challenge_packet@,
            challenge@,
            credential@,
            idempotency@,
            *adm,
        ) {
            Some(m) => r matches Some(p) && verification_view(p) == m,
            None => r is None,
        },
{
    let core = verification_core_json(price, challenge, idempotency, adm, None, None);
    let core_text = match json_text_of(&JsonValue::Object(core)) {
        Some(t) => t,
        None => {
            return None;
        },
    };
    let mut findings: Vec<Finding> = Vec::new();
    append_findings(&mut findings, packet_findings);
    append_findings(&mut findings, &adm.settlement_family.findings);
    append_findings(&mut findings, &adm.credential_family.findings);
    append_findings(&mut findings, &adm.credential_ref.findings);
    append_findings(&mut findings, &adm.verify_capability_ref.findings);
    let extras = credential_extras(credential);
    if extras.len() > 0 {
        let message = concat(
            "returned_credential contains unsupported fields: ",
            crate::text::join(&extras, ", ").as_str(),
        );
        push_finding(&mut findings, "credential.raw_fields", message.as_str());
    }
    let not_admitted = match &adm.settlement_family.value {
        Some(f) => !is_family_admitted(challenge_packet, f.as_str()),
        None => false,
    };
    if not_admitted {
        push_finding(
            &mut findings,
            "family.not_admitted",
            "settlement family is not admitted by the challenge",
        );
    }
    if !opt_eq(&adm.settlement_family.value, &adm.credential_family.value) {
        push_finding(
            &mut findings,
            "family.mismatch",
            "credential family does not match selected settlement family",
        );
    }
    let challenge_ready = match challenge.get("decision") {
        Some(v) => match v.as_str() {
            Some(s) => crate::text::str_eq(s.as_str(), "ready"),
            None => false,
        },
        None => false,
    };
    if !challenge_ready {
        push_finding(&mut findings, "challenge.blocked", "charge challenge is not ready");
    }
    assert(findings_view(findings@) =~= verification_findings(
        findings_view(packet_findings@),
        challenge_packet@,
        challenge@,
        credential@,
        *adm,
    ));
    let digest = concat("sha256:", sha256_hex(core_text.as_str().as_bytes()).as_str());
    let decision = if findings.len() == 0 {
        "ready_for_provider_adapter"
    } else {
        "blocked"
    };
    let request = verification_core_json(
        price,
        challenge,
        idempotency,
        adm,
        Some(decision),
        Some(digest.as_str()),
    );
    proof {
        reveal_strlit("credential_ref");
        reveal_strlit("family");
        lemma_key_order("credential_ref"@, "family"@, 0);
    }
    let mut binding = JsonObject::new();
    binding.push_last(key("credential_ref"), opt_str_json(&adm.credential_ref.value));
    binding.push_last(key("family"), opt_str_json(&adm.credential_family.value));
    let packet = VerificationRequestPacket {
        verification_request: request,
        credential_binding: binding,
        provider_status: owned("not_called"),
        receipt_status: owned("not_sealed"),
        forwarding_status: owned("not_forwarded"),
        open_questions: findings,
    };
    assert(packet.credential_binding@ =~= seq![
        ("credential_ref"@, opt_str_model(opt_view(adm.credential_ref.value))),
        ("family"@, opt_str_model(opt_view(adm.credential_family.value))),
    ]);
    Some(packet)
}

/// The object under `k`, or null.
pub open spec fn object_or_null(o: Seq<(Seq<char>, JsonModel)>, k: Seq<char>) -> JsonModel {
    match lookup(o, k) {
        Some(JsonModel::Object(e)) => JsonModel::Object(e),
        _ => JsonModel::Null,
    }
}

/// What a charge plan binds, in key order.
pub open spec fn plan_core(
    price_packet: Seq<(Seq<char>, JsonModel)>,
    challenge_packet: Seq<(Seq<char>, JsonModel)>,
    verification_packet: Seq<(Seq<char>, JsonModel)>,
    verification_request: Seq<(Seq<char>, JsonModel)>,
) -> Seq<(Seq<char>, JsonModel)> {
    seq![
        ("charge_challenge"@, object_or_null(challenge_packet, "charge_challenge"@)),
        ("charge_price"@, object_or_null(price_packet, "charge_price"@)),
        ("credential_binding"@, object_or_null(verification_packet, "credential_binding"@)),
        ("idempotency"@, object_or_null(challenge_packet, "idempotency"@)),
        ("verification_request"@, JsonModel::Object(verification_request)),
    ]
}

/// A charge plan: the plan object and the findings it records.
pub struct ChargePlan {
    pub plan: JsonObject,
    pub findings: Vec<Finding>,
}

/// The charge plan of the three packets: `packet_findings` are the
/// findings they carry, `verification_request` the request of the
/// verification packet. The plan binds the price, challenge, idempotency,
/// request and credential binding by its digest, keeps every provider and
/// receipt state explicit with forwarding off, and is ready for provider
/// verification only when the request is ready for the provider adapter
/// and nothing was found. None when what it binds holds a float, whose
/// digits are the JSON writer's own. The findings themselves go beside the
/// plan object, under `findings`.
pub open spec fn charge_plan_spec(
    packet_findings: Seq<(Seq<char>, Seq<char>)>,
    price_packet: Seq<(Seq<char>, JsonModel)>,
    challenge_packet: Seq<(Seq<char>, JsonModel)>,
    verification_packet: Seq<(Seq<char>, JsonModel)>,
    verification_request: Seq<(Seq<char>, JsonModel)>,
) -> Option<Seq<(Seq<char>, JsonModel)>> {
    let core = plan_core(price_packet, challenge_packet, verification_packet, verification_request);
    let ready = lookup(verification_request, "decision"@) == Some(
        JsonModel::Str("ready_for_provider_adapter"@),
    ) && packet_findings.len() == 0;
    match json_text(JsonModel::Object(core)) {
        Some(t) => Some(
            seq![
                ("approval_status"@, JsonModel::Str("not_requested"@)),
                core[0],
                core[1],
                core[2],
                (
                    "decision"@,
                    JsonModel::Str(
                        if ready {
                            "ready_for_provider_verification"@
                        } else {
                            "blocked"@
                        },
                    ),
                ),
                ("forwarding_status"@, JsonModel::Str("not_forwarded"@)),
                core[3],
                (
                    "next_action"@,
                    JsonModel::Str(
                        if ready {
                            "route through the selected settlement-family verifier; seal its receipt before forwarding"@
                        } else {
                            "resolve the recorded pricing, challenge, or credential gaps"@
                        },
                    ),
                ),
                ("plan_digest"@, JsonModel::Str("sha256:"@ + text_digest(t))),
                ("provider_status"@, JsonModel::Str("not_called"@)),
                ("receipt_status"@, JsonModel::Str("not_sealed"@)),
                ("runtime_forwarding_enabled"@, JsonModel::Bool(false)),
                ("schema"@, JsonModel::Str("runx.payment.charge_plan.v1"@)),
                core[4],
            ],
        ),
        None => None,
    }
}

fn object_or_null_json(o: &JsonObject, k: &str) -> (r: JsonValue)
    ensures
        r@ == object_or_null(o@, k@),
{
    match o.get(k) {
        Some(v) => match v.as_object() {
            Some(e) => JsonValue::Object(crate::json::clone_object(e)),
            None => JsonValue::Null,
        },
        None => JsonValue::Null,
    }
}

fn plan_core_json(
    price_packet: &JsonObject,
    challenge_packet: &JsonObject,
    verification_packet: &JsonObject,
    verification_request: &JsonObject,
) -> (r: JsonObject)
    ensures
        r@ == plan_core(price_packet@, challenge_packet@, verification_packet@, verification_request@),
{
    proof {
        reveal_strlit("charge_challenge");
        reveal_strlit("charge_price");
        reveal_strlit("credential_binding");
        reveal_strlit("idempotency");
        reveal_strlit("verification_request");
        lemma_key_order("charge_challenge"@, "charge_price"@, 7);
        lemma_key_order("charge_price"@, "credential_binding"@, 1);
        lemma_key_order("credential_binding"@, "idempotency"@, 0);
        lemma_key_order("idempotency"@, "verification_request"@, 0);
    }
    let mut o = JsonObject::new();
    o.push_last(key("charge_challenge"), object_or_null_json(challenge_packet, "charge_challenge"));
    o.push_last(key("charge_price"), object_or_null_json(price_packet, "charge_price"));
    o.push_last(
        key("credential_binding"),
        object_or_null_json(verification_packet, "credential_binding"),
    );
    o.push_last(key("idempotency"), object_or_null_json(challenge_packet, "idempotency"));
    o.push_last(
        key("verification_request"),
        JsonValue::Object(crate::json::clone_object(verification_request)),
    );
    assert(o@ =~= plan_core(price_packet@, challenge_packet@, verification_packet@, verification_request@));
    o
}

/// The charge plan of the price, challenge and verification packets.
pub fn charge_plan(
    packet_findings: &Vec<Finding>,
    price_packet: &JsonObject,
    challenge_packet: &JsonObject,
    verification_packet: &JsonObject,
    verification_request: &JsonObject,
) -> (r: Option<ChargePlan>)
    ensures
        match charge_plan_spec(
            findings_view(packet_findings@),
            price_packet@,
            challenge_packet@,
            verification_packet@,
            verification_request@,
        ) {
            Some(m) => r matches Some(p) && p.plan@ == m && findings_view(p.findings@)
                == findings_view(packet_findings@),
            None => r is None,
        },
{
    let core = plan_core_json(price_packet, challenge_packet, verification_packet, verification_request);
    let core_text = match json_text_of(&JsonValue::Object(core)) {
        Some(t) => t,
        None => {
            return None;
        },
    };
    let digest = concat("sha256:", sha256_hex(core_text.as_str().as_bytes()).as_str());
    let request_ready = match verification_request.get("decision") {
        Some(v) => match v.as_str() {
            Some(s) => crate::text::str_eq(s.as_str(), "ready_for_provider_adapter"),
            None => false,
        },
        None => false,
    };
    let ready = request_ready && packet_findings.len() == 0;
    let mut findings: Vec<Finding> = Vec::new();
    append_findings(&mut findings, packet_findings);
    assert(findings_view(findings@) =~= findings_view(packet_findings@));
    proof {
        reveal_strlit("approval_status");
        reveal_strlit("charge_challenge");
        reveal_strlit("charge_price");
        reveal_strlit("credential_binding");
        reveal_strlit("decision");
        reveal_strlit("forwarding_status");
        reveal_strlit("idempotency");
        reveal_strlit("next_action");
        reveal_strlit("plan_digest");
        reveal_strlit("provider_status");
        reveal_strlit("receipt_status");
        reveal_strlit("runtime_forwarding_enabled");
        reveal_strlit("schema");
        reveal_strlit("verification_request");
        lemma_key_order("approval_status"@, "charge_challenge"@, 0);
        lemma_key_order("charge_challenge"@, "charge_price"@, 7);
        lemma_key_order("charge_price"@, "credential_binding"@, 1);
        lemma_key_order("credential_binding"@, "decision"@, 0);
        lemma_key_order("decision"@, "forwarding_status"@, 0);
        lemma_key_order("forwarding_status"@, "idempotency"@, 0);
        lemma_key_order("idempotency"@, "next_action"@, 0);
        lemma_key_order("next_action"@, "plan_digest"@, 0);
        lemma_key_order("plan_digest"@, "provider_status"@, 1);
        lemma_key_order("provider_status"@, "receipt_status"@, 0);
        lemma_key_order("receipt_status"@, "runtime_forwarding_enabled"@, 1);
        lemma_key_order("runtime_forwarding_enabled"@, "schema"@, 0);
        lemma_key_order("schema"@, "verification_request"@, 0);
    }
    let mut plan = JsonObject::new();
    plan.push_last(key("approval_status"), str_json("not_requested"));
    plan.push_last(key("charge_challenge"), object_or_null_json(challenge_packet, "charge_challenge"));
    plan.push_last(key("charge_price"), object_or_null_json(price_packet, "charge_price"));
    plan.push_last(
        key("credential_binding"),
        object_or_null_json(verification_packet, "credential_binding"),
    );
    plan.push_last(
        key("decision"),
        str_json(
            if ready {
                "ready_for_provider_verification"
            } else {
                "blocked"
            },
        ),
    );
    plan.push_last(key("forwarding_status"), str_json("not_forwarded"));
    plan.push_last(key("idempotency"), object_or_null_json(challenge_packet, "idempotency"));
    plan.push_last(
        key("next_action"),
        str_json(
            if ready {
                "route through the selected settlement-family verifier; seal its receipt before forwarding"
            } else {
                "resolve the recorded pricing, challenge, or credential gaps"
            },
        ),
    );
    plan.push_last(key("plan_digest"), str_json(digest.as_str()));
    plan.push_last(key("provider_status"), str_json("not_called"));
    plan.push_last(key("receipt_status"), str_json("not_sealed"));
    plan.push_last(key("runtime_forwarding_enabled"), JsonValue::Bool(false));
    plan.push_last(key("schema"), str_json("runx.payment.charge_plan.v1"));
    plan.push_last(
        key("verification_request"),
        JsonValue::Object(crate::json::clone_object(verification_request)),
    );
    assert(plan@ =~= charge_plan_spec(
        findings_view(packet_findings@),
        price_packet@,
        challenge_packet@,
        verification_packet@,
        verification_request@,
    )->0);
    Some(ChargePlan { plan, findings })
}

/// Keys that increase from each entry to the next increase throughout.
proof fn lemma_sorted_from_steps(e: Seq<(Seq<char>, JsonModel)>)
    requires
        forall|i: int| 0 <= i < e.len() - 1 ==> seq_less(#[trigger] e[i].0, e[i + 1].0),
    ensures
        crate::json::sorted_keys(e),
    decreases e.len(),
{
    if e.len() > 1 {
        let p = e.drop_last();
        assert forall|i: int| 0 <= i < p.len() - 1 implies seq_less(#[trigger] p[i].0, p[i + 1].0) by {
            assert(p[i] == e[i]);
            assert(p[i + 1] == e[i + 1]);
            assert(seq_less(e[i].0, e[i + 1].0));
        }
        lemma_sorted_from_steps(p);
        assert forall|i: int, j: int| 0 <= i < j < e.len() implies seq_less(
            #[trigger] e[i].0,
            #[trigger] e[j].0,
        ) by {
            if j < e.len() - 1 {
                assert(p[i] == e[i] && p[j] == e[j]);
            } else {
                assert(seq_less(e[j - 1].0, e[j].0));
                if i < j - 1 {
                    assert(p[i] == e[i] && p[j - 1] == e[j - 1]);
                    crate::text::lemma_seq_less_transitive(e[i].0, e[j - 1].0, e[j].0);
                }
            }
        }
    }
}

/// Fail-closed: a price with findings is blocked, and the challenge made
/// from it is blocked as well, whatever else the challenge is given.
pub proof fn lemma_blocked_price_blocks_challenge(
    call: Seq<(Seq<char>, JsonModel)>,
    policy: Seq<(Seq<char>, JsonModel)>,
    adm: PriceAdmission,
    packet_findings: Seq<(Seq<char>, Seq<char>)>,
    authority: Seq<(Seq<char>, JsonModel)>,
    seed: Seq<char>,
    price_id: Seq<char>,
)
    requires
        charge_price_spec(call, policy, adm) is Some,
        price_findings(call, policy, adm).len() > 0,
    ensures
        charge_price_spec(call, policy, adm)->0.charge_price[3] == ("decision"@, JsonModel::Str(
            "blocked"@,
        )),
        charge_challenge_spec(
            packet_findings,
            charge_price_spec(call, policy, adm)->0.charge_price,
            authority,
            seed,
            price_id,
        ).charge_challenge[1] == ("decision"@, JsonModel::Str("blocked"@)),
{
    let e = charge_price_spec(call, policy, adm)->0.charge_price;
    reveal_strlit("amount_minor");
    reveal_strlit("counterparty");
    reveal_strlit("currency");
    reveal_strlit("decision");
    reveal_strlit("expires_at");
    reveal_strlit("operation");
    reveal_strlit("price_id");
    reveal_strlit("realm");
    reveal_strlit("settlement_families");
    reveal_strlit("ready");
    reveal_strlit("blocked");
    lemma_key_order("amount_minor"@, "counterparty"@, 0);
    lemma_key_order("counterparty"@, "currency"@, 1);
    lemma_key_order("currency"@, "decision"@, 0);
    lemma_key_order("decision"@, "expires_at"@, 0);
    lemma_key_order("expires_at"@, "operation"@, 0);
    lemma_key_order("operation"@, "price_id"@, 0);
    lemma_key_order("price_id"@, "realm"@, 0);
    lemma_key_order("realm"@, "settlement_families"@, 0);
    assert forall|i: int| 0 <= i < e.len() - 1 implies seq_less(#[trigger] e[i].0, e[i + 1].0) by {
        if i == 0 {
        } else if i == 1 {
        } else if i == 2 {
        } else if i == 3 {
        } else if i == 4 {
        } else if i == 5 {
        } else if i == 6 {
        } else {
        }
    }
    lemma_sorted_from_steps(e);
    crate::json::lemma_lookup_at(e, 3);
    assert("blocked"@ != "ready"@) by {
        assert("blocked"@[0] != "ready"@[0]);
    }
}

/// Fail-closed: a blocked challenge blocks the verification request made
/// against it.
pub proof fn lemma_blocked_challenge_blocks_request(
    challenge: ChallengePacketModel,
    packet_findings: Seq<(Seq<char>, Seq<char>)>,
    price: Seq<(Seq<char>, JsonModel)>,
    challenge_packet: Seq<(Seq<char>, JsonModel)>,
    credential: Seq<(Seq<char>, JsonModel)>,
    idempotency: Seq<(Seq<char>, JsonModel)>,
    adm: CredentialAdmission,
)
    requires
        challenge.charge_challenge.len() == 5,
        challenge.charge_challenge[0].0 == "challenge_id"@,
        challenge.charge_challenge[1] == ("decision"@, JsonModel::Str("blocked"@)),
        challenge.charge_challenge[2].0 == "price_id"@,
        challenge.charge_challenge[3].0 == "receipt_before_forward_required"@,
        challenge.charge_challenge[4].0 == "required_authority"@,
        verification_request_spec(
            packet_findings,
            price,
            challenge_packet,
            challenge.charge_challenge,
            credential,
            idempotency,
            adm,
        ) is Some,
    ensures
        verification_request_spec(
            packet_findings,
            price,
            challenge_packet,
            challenge.charge_challenge,
            credential,
            idempotency,
            adm,
        )->0.verification_request[2] == ("decision"@, JsonModel::Str("blocked"@)),
{
    let e = challenge.charge_challenge;
    reveal_strlit("challenge_id");
    reveal_strlit("decision");
    reveal_strlit("price_id");
    reveal_strlit("receipt_before_forward_required");
    reveal_strlit("required_authority");
    reveal_strlit("ready");
    reveal_strlit("blocked");
    lemma_key_order("challenge_id"@, "decision"@, 0);
    lemma_key_order("decision"@, "price_id"@, 0);
    lemma_key_order("price_id"@, "receipt_before_forward_required"@, 0);
    lemma_key_order("receipt_before_forward_required"@, "required_authority"@, 2);
    assert forall|i: int| 0 <= i < e.len() - 1 implies seq_less(#[trigger] e[i].0, e[i + 1].0) by {
        if i == 0 {
        } else if i == 1 {
        } else if i == 2 {
        } else {
        }
    }
    lemma_sorted_from_steps(e);
    crate::json::lemma_lookup_at(e, 1);
    assert("blocked"@ != "ready"@) by {
        assert("blocked"@[0] != "ready"@[0]);
    }
}

/// Fail-closed: a blocked verification request blocks the plan, and the
/// plan never enables forwarding.
pub proof fn lemma_blocked_request_blocks_plan(
    request: VerificationPacketModel,
    packet_findings: Seq<(Seq<char>, Seq<char>)>,
    price_packet: Seq<(Seq<char>, JsonModel)>,
    challenge_packet: Seq<(Seq<char>, JsonModel)>,
    verification_packet: Seq<(Seq<char>, JsonModel)>,
)
    requires
        request.verification_request.len() == 8,
        request.verification_request[0].0 == "challenge_id"@,
        request.verification_request[1].0 == "credential_ref"@,
        request.verification_request[2] == ("decision"@, JsonModel::Str("blocked"@)),
        request.verification_request[3].0 == "idempotency"@,
        request.verification_request[4].0 == "price_id"@,
        request.verification_request[5].0 == "request_digest"@,
        request.verification_request[6].0 == "settlement_family"@,
        request.verification_request[7].0 == "verify_capability_ref"@,
        charge_plan_spec(
            packet_findings,
            price_packet,
            challenge_packet,
            verification_packet,
            request.verification_request,
        ) is Some,
    ensures
        charge_plan_spec(
            packet_findings,
            price_packet,
            challenge_packet,
            verification_packet,
            request.verification_request,
        )->0[4] == ("decision"@, JsonModel::Str("blocked"@)),
        charge_plan_spec(
            packet_findings,
            price_packet,
            challenge_packet,
            verification_packet,
            request.verification_request,
        )->0[11] == ("runtime_forwarding_enabled"@, JsonModel::Bool(false)),
{
    let e = request.verification_request;
    reveal_strlit("challenge_id");
    reveal_strlit("credential_ref");
    reveal_strlit("decision");
    reveal_strlit("idempotency");
    reveal_strlit("price_id");
    reveal_strlit("request_digest");
    reveal_strlit("settlement_family");
    reveal_strlit("verify_capability_ref");
    reveal_strlit("blocked");
    reveal_strlit("ready_for_provider_adapter");
    lemma_key_order("challenge_id"@, "credential_ref"@, 1);
    lemma_key_order("credential_ref"@, "decision"@, 0);
    lemma_key_order("decision"@, "idempotency"@, 0);
    lemma_key_order("idempotency"@, "price_id"@, 0);
    lemma_key_order("price_id"@, "request_digest"@, 0);
    lemma_key_order("request_digest"@, "settlement_family"@, 0);
    lemma_key_order("settlement_family"@, "verify_capability_ref"@, 0);
    assert forall|i: int| 0 <= i < e.len() - 1 implies seq_less(#[trigger] e[i].0, e[i + 1].0) by {
        if i == 0 {
        } else if i == 1 {
        } else if i == 2 {
        } else if i == 3 {
        } else if i == 4 {
        } else if i == 5 {
        } else {
        }
    }
    lemma_sorted_from_steps(e);
    crate::json::lemma_lookup_at(e, 2);
    assert("blocked"@ != "ready_for_provider_adapter"@) by {
        assert("blocked"@[0] != "ready_for_provider_adapter"@[0]);
    }
}


/// The price stands in the provider's realm: when a realm was admitted, the
/// price's realm, the policy metadata's provider realm, the payment limit's
/// realm and the realm its identifier digests are all that realm; only when
/// none was admitted is the realm `local`. Its currency, counterparty and
/// operation are likewise the admitted ones.
pub proof fn lemma_price_in_admitted_realm(
    call: Seq<(Seq<char>, JsonModel)>,
    policy: Seq<(Seq<char>, JsonModel)>,
    adm: PriceAdmission,
)
    requires
        charge_price_spec(call, policy, adm) is Some,
    ensures
        ({
            let m = charge_price_spec(call, policy, adm)->0;
            let realm = match adm.realm.value {
                Some(r) => r@,
                None => "local"@,
            };
            let core = price_core(policy, adm);
            let limit = m.requested_payment_authority[0].1->Object_0[0].1->Array_0[0]->Object_0;
            &&& m.charge_price[7] == ("realm"@, JsonModel::Str(realm))
            &&& m.policy_metadata[1] == ("provider_realm"@, JsonModel::Str(realm))
            &&& limit[6] == ("realm"@, JsonModel::Str(realm))
            &&& core[5] == ("realm"@, JsonModel::Str(realm))
            &&& m.charge_price[6] == ("price_id"@, JsonModel::Str(
                "charge-price:"@ + text_digest(json_text(JsonModel::Object(core))->0),
            ))
            &&& limit[8] == ("unit"@, match adm.currency.value {
                Some(c) => JsonModel::Str(c@),
                None => JsonModel::Null,
            })
            &&& limit[5] == ("peer"@, match adm.counterparty.value {
                Some(c) => JsonModel::Str(c@),
                None => JsonModel::Null,
            })
            &&& limit[4] == ("operation"@, match adm.operation.value {
                Some(c) => JsonModel::Str(c@),
                None => JsonModel::Null,
            })
            &&& m.charge_price[0] == ("amount_minor"@, match adm.price_minor {
                Some(a) => if a > 0 {
                    JsonModel::Int(a as int)
                } else {
                    JsonModel::Null
                },
                None => JsonModel::Null,
            })
            &&& m.charge_price[1] == ("counterparty"@, match adm.counterparty.value {
                Some(c) => JsonModel::Str(c@),
                None => JsonModel::Null,
            })
            &&& m.charge_price[2] == ("currency"@, match adm.currency.value {
                Some(c) => JsonModel::Str(c@),
                None => JsonModel::Null,
            })
            &&& m.charge_price[5] == ("operation"@, match adm.operation.value {
                Some(c) => JsonModel::Str(c@),
                None => JsonModel::Null,
            })
            &&& m.charge_price[3] == ("decision"@, JsonModel::Str(
                if m.open_questions.len() == 0 {
                    "ready"@
                } else {
                    "blocked"@
                },
            ))
            &&& m.price_evidence[1].1->Array_0[1] == JsonModel::Str(
                "tool-call:sha256:"@ + text_digest(json_text(JsonModel::Object(call))->0),
            )
            &&& m.price_evidence[1].1->Array_0[0] == JsonModel::Str(match adm.policy_ref.value {
                Some(r) => r@,
                None => "policy:sha256:"@ + text_digest(json_text(JsonModel::Object(policy))->0),
            })
        }),
{
}


/// The compact text of a two-string object.
proof fn lemma_two_string_text(k1: Seq<char>, a: Seq<char>, k2: Seq<char>, b: Seq<char>)
    ensures
        json_text(JsonModel::Object(seq![(k1, JsonModel::Str(a)), (k2, JsonModel::Str(b))])) == Some(
            "{"@ + json_string_literal(k1) + ":"@ + json_string_literal(a) + ","@ + json_string_literal(k2) + ":"@
                + json_string_literal(b) + "}"@,
        ),
{
    let e0 = Seq::<(Seq<char>, JsonModel)>::empty();
    let e1 = e0.push((k1, JsonModel::Str(a)));
    let e2 = e1.push((k2, JsonModel::Str(b)));
    crate::json_text::lemma_entries_text_push(e0, k1, JsonModel::Str(a));
    crate::json_text::lemma_entries_text_push(e1, k2, JsonModel::Str(b));
    assert(e2 =~= seq![(k1, JsonModel::Str(a)), (k2, JsonModel::Str(b))]);
    assert("{"@ + (json_string_literal(k1) + ":"@ + json_string_literal(a) + ","@ + json_string_literal(k2) + ":"@
        + json_string_literal(b)) + "}"@ =~= "{"@ + json_string_literal(k1) + ":"@ + json_string_literal(a) + ","@
        + json_string_literal(k2) + ":"@ + json_string_literal(b) + "}"@);
}

/// A challenge is named by its price and its idempotency seed alone (the
/// digest of the object holding both), signals exactly that price's
/// amount, currency and first settlement family, carries the price's
/// requested authority, keys replays by the seed, and is ready exactly when
/// the price is ready and its packet carried no finding.
pub proof fn lemma_challenge_binds_price_and_seed(
    packet_findings: Seq<(Seq<char>, Seq<char>)>,
    price: Seq<(Seq<char>, JsonModel)>,
    authority: Seq<(Seq<char>, JsonModel)>,
    seed: Seq<char>,
    price_id: Seq<char>,
)
    ensures
        ({
            let c = charge_challenge_spec(packet_findings, price, authority, seed, price_id);
            let id = "charge-challenge:"@ + text_digest(
                json_text(
                    JsonModel::Object(
                        seq![("idempotency_seed"@, JsonModel::Str(seed)), ("price_id"@, JsonModel::Str(price_id))],
                    ),
                )->0,
            );
            &&& c.charge_challenge[0] == ("challenge_id"@, JsonModel::Str(id))
            &&& c.effect_required_signal[1] == ("challenge_id"@, JsonModel::Str(id))
            &&& c.charge_challenge[1] == ("decision"@, JsonModel::Str(
                if packet_findings.len() == 0 && lookup(price, "decision"@) == Some(JsonModel::Str("ready"@)) {
                    "ready"@
                } else {
                    "blocked"@
                },
            ))
            &&& c.charge_challenge[2] == ("price_id"@, JsonModel::Str(price_id))
            &&& c.charge_challenge[4] == ("required_authority"@, JsonModel::Object(authority))
            &&& c.idempotency[0] == ("key"@, JsonModel::Str("charge:"@ + seed))
            &&& c.effect_required_signal[0] == ("amount_minor"@, match lookup(price, "amount_minor"@) {
                Some(v) => v,
                None => JsonModel::Null,
            })
            &&& c.effect_required_signal[3] == ("currency"@, match lookup(price, "currency"@) {
                Some(v) => v,
                None => JsonModel::Null,
            })
            &&& c.effect_required_signal[5] == ("rail"@, JsonModel::Str(
                match lookup(price, "settlement_families"@) {
                    Some(JsonModel::Array(items)) => if items.len() > 0 && items[0] is Str {
                        items[0]->Str_0
                    } else {
                        Seq::empty()
                    },
                    _ => Seq::empty(),
                },
            ))
        }),
{
    lemma_two_string_text("idempotency_seed"@, seed, "price_id"@, price_id);
}

/// Whether every key of an object is `family` or `credential_ref`.
pub open spec fn only_credential_fields(keys: Seq<Seq<char>>) -> bool {
    forall|i: int| 0 <= i < keys.len() ==> #[trigger] keys[i] == "family"@ || keys[i] == "credential_ref"@
}

proof fn lemma_no_extra_fields(keys: Seq<Seq<char>>)
    ensures
        (extra_fields(keys).len() == 0) == only_credential_fields(keys),
    decreases keys.len(),
{
    if keys.len() > 0 {
        let d = keys.drop_last();
        lemma_no_extra_fields(d);
        if only_credential_fields(keys) {
            assert forall|i: int| 0 <= i < d.len() implies #[trigger] d[i] == "family"@ || d[i] == "credential_ref"@ by {
                assert(d[i] == keys[i]);
            }
            assert(keys[keys.len() - 1] == keys.last());
        }
        if extra_fields(keys).len() == 0 {
            assert forall|i: int| 0 <= i < keys.len() implies #[trigger] keys[i] == "family"@ || keys[i]
                == "credential_ref"@ by {
                if i < d.len() {
                    assert(d[i] == keys[i]);
                } else {
                    assert(keys[i] == keys.last());
                }
            }
        }
    }
}

/// A verification request is ready for the provider adapter exactly when
/// nothing stands against it: no finding from the packets or from
/// admission, a credential carrying nothing but its family and reference,
/// a selected family the challenge admits and the credential shares, and a
/// ready challenge. It binds the credential's family and reference, and
/// leaves the provider uncalled, no receipt sealed and nothing forwarded.
pub proof fn lemma_verification_ready_exactly_when_clean(
    packet_findings: Seq<(Seq<char>, Seq<char>)>,
    price: Seq<(Seq<char>, JsonModel)>,
    challenge_packet: Seq<(Seq<char>, JsonModel)>,
    challenge: Seq<(Seq<char>, JsonModel)>,
    credential: Seq<(Seq<char>, JsonModel)>,
    idempotency: Seq<(Seq<char>, JsonModel)>,
    adm: CredentialAdmission,
)
    requires
        verification_request_spec(
            packet_findings,
            price,
            challenge_packet,
            challenge,
            credential,
            idempotency,
            adm,
        ) is Some,
    ensures
        ({
            let m = verification_request_spec(
                packet_findings,
                price,
                challenge_packet,
                challenge,
                credential,
                idempotency,
                adm,
            )->0;
            let family = opt_view(adm.settlement_family.value);
            let clean = packet_findings.len() == 0 && adm.settlement_family.findings@.len() == 0
                && adm.credential_family.findings@.len() == 0 && adm.credential_ref.findings@.len() == 0
                && adm.verify_capability_ref.findings@.len() == 0 && only_credential_fields(
                crate::json::key_seq(credential),
            ) && (match family {
                Some(f) => match lookup(challenge_packet, "accepted_settlement_families"@) {
                    Some(JsonModel::Array(items)) => exists|i: int|
                        0 <= i < items.len() && #[trigger] items[i] == JsonModel::Str(f),
                    _ => false,
                },
                None => true,
            }) && family == opt_view(adm.credential_family.value) && lookup(challenge, "decision"@) == Some(
                JsonModel::Str("ready"@),
            );
            &&& m.verification_request[2] == ("decision"@, JsonModel::Str(
                if clean {
                    "ready_for_provider_adapter"@
                } else {
                    "blocked"@
                },
            ))
            &&& m.credential_binding == seq![
                ("credential_ref"@, opt_str_model(opt_view(adm.credential_ref.value))),
                ("family"@, opt_str_model(opt_view(adm.credential_family.value))),
            ]
            &&& m.provider_status == "not_called"@
            &&& m.receipt_status == "not_sealed"@
            &&& m.forwarding_status == "not_forwarded"@
        }),
{
    lemma_no_extra_fields(crate::json::key_seq(credential));
    let fs = verification_findings(packet_findings, challenge_packet, challenge, credential, adm);
    let family = opt_view(adm.settlement_family.value);
    if let Some(f) = family {
        if let Some(JsonModel::Array(items)) = lookup(challenge_packet, "accepted_settlement_families"@) {
            if exists|i: int| 0 <= i < items.len() && #[trigger] items[i] == JsonModel::Str(f) {
                let i = choose|i: int| 0 <= i < items.len() && #[trigger] items[i] == JsonModel::Str(f);
                assert(admitted_families(challenge_packet)[i] == JsonModel::Str(f));
            }
            if family_admitted(challenge_packet, f) {
                let i = choose|i: int|
                    0 <= i < admitted_families(challenge_packet).len() && #[trigger] admitted_families(
                        challenge_packet,
                    )[i] == JsonModel::Str(f);
                assert(items[i] == JsonModel::Str(f));
            }
        } else {
            if family_admitted(challenge_packet, f) {
                let i = choose|i: int|
                    0 <= i < admitted_families(challenge_packet).len() && #[trigger] admitted_families(
                        challenge_packet,
                    )[i] == JsonModel::Str(f);
            }
        }
    }
}

/// A plan is ready for provider verification exactly when its verification
/// request is ready for the provider adapter and no packet carried a
/// finding; it binds the packets' price, challenge, idempotency record,
/// credential binding and the request, never enables forwarding, and
/// records the provider uncalled, no receipt sealed, nothing forwarded and
/// no approval requested.
pub proof fn lemma_plan_ready_exactly_when_request_is(
    packet_findings: Seq<(Seq<char>, Seq<char>)>,
    price_packet: Seq<(Seq<char>, JsonModel)>,
    challenge_packet: Seq<(Seq<char>, JsonModel)>,
    verification_packet: Seq<(Seq<char>, JsonModel)>,
    verification_request: Seq<(Seq<char>, JsonModel)>,
)
    requires
        charge_plan_spec(packet_findings, price_packet, challenge_packet, verification_packet, verification_request)
            is Some,
    ensures
        ({
            let p = charge_plan_spec(
                packet_findings,
                price_packet,
                challenge_packet,
                verification_packet,
                verification_request,
            )->0;
            let ready = lookup(verification_request, "decision"@) == Some(
                JsonModel::Str("ready_for_provider_adapter"@),
            ) && packet_findings.len() == 0;
            &&& p[4] == ("decision"@, JsonModel::Str(
                if ready {
                    "ready_for_provider_verification"@
                } else {
                    "blocked"@
                },
            ))
            &&& p[11] == ("runtime_forwarding_enabled"@, JsonModel::Bool(false))
            &&& p[0] == ("approval_status"@, JsonModel::Str("not_requested"@))
            &&& p[5] == ("forwarding_status"@, JsonModel::Str("not_forwarded"@))
            &&& p[9] == ("provider_status"@, JsonModel::Str("not_called"@))
            &&& p[10] == ("receipt_status"@, JsonModel::Str("not_sealed"@))
            &&& p[13] == ("verification_request"@, JsonModel::Object(verification_request))
            &&& p[2] == ("charge_price"@, match lookup(price_packet, "charge_price"@) {
                Some(JsonModel::Object(e)) => JsonModel::Object(e),
                _ => JsonModel::Null,
            })
            &&& p[1] == ("charge_challenge"@, match lookup(challenge_packet, "charge_challenge"@) {
                Some(JsonModel::Object(e)) => JsonModel::Object(e),
                _ => JsonModel::Null,
            })
        }),
{
}

} // verus!
