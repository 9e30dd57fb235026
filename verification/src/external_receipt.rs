//! Verification of an external (scafld) receipt: the bounded target and
//! contract digest, the receipt's signed binding, and the verifier's run.
use vstd::prelude::*;

use vstd::string::StringSliceAdditionalSpecFns;

use crate::json::{lookup, JsonModel, JsonObject, JsonValue};
use crate::scheduler::env_lookup;
use crate::text::{
    concat, contains_char, is_unicode_whitespace, starts_with, starts_with_spec, str_eq, trim_spec,
};

verus! {

/// The effect family of external receipt verification.
pub const EXTERNAL_RECEIPT_EFFECT_FAMILY: &'static str = "external_receipt";

/// The tool that verifies an external receipt.
pub const EXTERNAL_RECEIPT_VERIFY_TOOL: &'static str = "external_receipt.verify";

/// The environment variable naming the verifier binary.
pub const SCAFLD_BIN_ENV: &'static str = "RUNX_SCAFLD_BIN";

/// The runtime effect that verifies external receipts.
#[derive(Clone, Copy, Debug, Default)]
pub struct ExternalReceiptEffect;

/// The authority an admitted verification runs under.
#[derive(Debug, PartialEq, Eq)]
pub struct ExternalReceiptAdmission {
    pub family: String,
    pub parent_term_id: String,
    pub child_term_id: String,
}

impl ExternalReceiptEffect {
    /// The effect's family.
    pub fn family(&self) -> (r: &'static str)
        ensures
            r@ == EXTERNAL_RECEIPT_EFFECT_FAMILY@,
    {
        EXTERNAL_RECEIPT_EFFECT_FAMILY
    }

    /// Whether a step targets the verification tool.
    pub fn matches_target(&self, tool_ref: Option<&str>) -> (r: bool)
        ensures
            r == (tool_ref matches Some(t) && t@ == EXTERNAL_RECEIPT_VERIFY_TOOL@),
    {
        match tool_ref {
            Some(t) => str_eq(t, EXTERNAL_RECEIPT_VERIFY_TOOL),
            None => false,
        }
    }

    /// Admission of a step that targets the verification tool, as a read under
    /// the workspace term, with a child term for the step.
    pub fn admission(&self, tool_ref: Option<&str>, step_id: &str) -> (r: Option<ExternalReceiptAdmission>)
        ensures
            (tool_ref matches Some(t) && t@ == EXTERNAL_RECEIPT_VERIFY_TOOL@) ==> (r matches Some(a)
                && a.family@ == EXTERNAL_RECEIPT_EFFECT_FAMILY@ && a.parent_term_id@
                == "external-receipt:workspace"@ && a.child_term_id@ == "external-receipt:"@
                + step_id@),
            !(tool_ref matches Some(t) && t@ == EXTERNAL_RECEIPT_VERIFY_TOOL@) ==> r is None,
    {
        if !self.matches_target(tool_ref) {
            return None;
        }
        Some(
            ExternalReceiptAdmission {
                family: EXTERNAL_RECEIPT_EFFECT_FAMILY.to_owned(),
                parent_term_id: "external-receipt:workspace".to_owned(),
                child_term_id: concat("external-receipt:", step_id),
            },
        )
    }
}

/// A verification target: a non-empty Git ref or commit id of at most 1024
/// bytes that does not start with `-` and holds no NUL or whitespace.
pub open spec fn valid_target(v: Seq<char>) -> bool {
    &&& v.len() > 0
    &&& !starts_with_spec(v, "-"@)
    &&& vstd::utf8::encode_utf8(v).len() <= 1024
    &&& !v.contains('\0')
    &&& forall|i: int| 0 <= i < v.len() ==> !is_unicode_whitespace(#[trigger] v[i])
}

/// Accepts a bounded Git ref or commit id.
pub fn validate_target(value: &str) -> (r: Result<(), String>)
    ensures
        r is Ok <==> valid_target(value@),
        r matches Err(m) ==> m@ == "target must be a bounded Git ref or commit id"@,
{
    let bytes = value.as_bytes();
    let chars = crate::text::chars_of(value);
    let mut ok = chars.len() > 0 && !starts_with(value, "-") && bytes.len() <= 1024
        && !contains_char(value, '\0');
    if ok {
        let mut i: usize = 0;
        while i < chars.len()
            invariant
                i <= chars@.len(),
                chars@ == value@,
                forall|j: int| 0 <= j < i ==> !is_unicode_whitespace(#[trigger] chars@[j]),
            decreases chars.len() - i,
        {
            if crate::text::is_whitespace(chars[i]) {
                assert(is_unicode_whitespace(chars@[i as int]));
                return Err("target must be a bounded Git ref or commit id".to_owned());
            }
            i = i + 1;
        }
    }
    if ok {
        Ok(())
    } else {
        Err("target must be a bounded Git ref or commit id".to_owned())
    }
}

pub open spec fn hex_char(c: char) -> bool {
    ('0' <= c <= '9') || ('a' <= c <= 'f') || ('A' <= c <= 'F')
}

/// A contract digest: `sha256:` and 64 hexadecimal digits.
pub open spec fn valid_digest(v: Seq<char>) -> bool {
    &&& starts_with_spec(v, "sha256:"@)
    &&& v.len() == 71
    &&& forall|i: int| 7 <= i < v.len() ==> hex_char(#[trigger] v[i])
}

/// Accepts a `sha256:` digest.
pub fn validate_digest(value: &str) -> (r: Result<(), String>)
    ensures
        r is Ok <==> valid_digest(value@),
        r matches Err(m) ==> m@ == "contract_digest must be a sha256 digest"@,
{
    proof {
        reveal_strlit("sha256:");
    }
    if !starts_with(value, "sha256:") {
        return Err("contract_digest must be a sha256 digest".to_owned());
    }
    let chars = crate::text::chars_of(value);
    if chars.len() != 71 {
        return Err("contract_digest must be a sha256 digest".to_owned());
    }
    let mut i: usize = 7;
    while i < chars.len()
        invariant
            7 <= i <= chars@.len(),
            chars@ == value@,
            forall|j: int| 7 <= j < i ==> hex_char(#[trigger] chars@[j]),
        decreases chars.len() - i,
    {
        let c = chars[i];
        if !((c >= '0' && c <= '9') || (c >= 'a' && c <= 'f') || (c >= 'A' && c <= 'F')) {
            assert(!hex_char(chars@[i as int]));
            return Err("contract_digest must be a sha256 digest".to_owned());
        }
        i = i + 1;
    }
    Ok(())
}

/// A body field that must be a non-blank string (kept as written).
pub open spec fn body_string(body: Seq<(Seq<char>, JsonModel)>, field: Seq<char>) -> Option<Seq<char>> {
    match lookup(body, field) {
        Some(JsonModel::Str(s)) => if trim_spec(s).len() > 0 {
            Some(s)
        } else {
            None
        },
        _ => None,
    }
}

/// The string under `field`, which must not be blank.
pub fn required_body_string(body: &JsonObject, field: &str) -> (r: Result<String, String>)
    ensures
        match body_string(body@, field@) {
            Some(s) => r matches Ok(x) && x@ == s,
            None => r matches Err(m) && m@ == "receipt body omits "@ + field@,
        },
{
    match body.get(field) {
        Some(JsonValue::String(s)) => {
            if !crate::text::is_blank(s.as_str()) {
                return Ok(s.clone());
            }
        },
        _ => {},
    }
    Err(concat("receipt body omits ", field))
}

/// `s` without every leading `sha256:`.
pub open spec fn strip_sha_prefixes(s: Seq<char>) -> Seq<char>
    decreases s.len(),
{
    if starts_with_spec(s, "sha256:"@) && s.len() >= 7 {
        strip_sha_prefixes(s.subrange(7, s.len() as int))
    } else {
        s
    }
}

/// Stripping removes whole `sha256:` prefixes from the front and nothing
/// else: what is left is a suffix of `s`, shorter by a multiple of seven
/// characters, and no longer starts with `sha256:`.
pub proof fn lemma_strip_sha_prefixes(s: Seq<char>)
    ensures
        !starts_with_spec(strip_sha_prefixes(s), "sha256:"@),
        crate::text::ends_with_spec(s, strip_sha_prefixes(s)),
        (s.len() - strip_sha_prefixes(s).len()) % 7 == 0,
        !starts_with_spec(s, "sha256:"@) ==> strip_sha_prefixes(s) == s,
    decreases s.len(),
{
    reveal_strlit("sha256:");
    if starts_with_spec(s, "sha256:"@) && s.len() >= 7 {
        let rest = s.subrange(7, s.len() as int);
        lemma_strip_sha_prefixes(rest);
        let r = strip_sha_prefixes(rest);
        assert(s.subrange(s.len() - r.len(), s.len() as int) =~= rest.subrange(
            rest.len() - r.len(),
            rest.len() as int,
        ));
    } else {
        assert(s.subrange(0, s.len() as int) =~= s);
    }
}

fn trim_sha_prefixes(s: &str) -> (r: String)
    ensures
        r@ == strip_sha_prefixes(s@),
{
    proof {
        reveal_strlit("sha256:");
    }
    let chars = crate::text::chars_of(s);
    let mut start: usize = 0;
    assert(s@.subrange(0, s@.len() as int) =~= s@);
    while chars.len() - start >= 7 && starts_with(
        crate::text::string_from_range(&chars, start, chars.len()).as_str(),
        "sha256:",
    )
        invariant
            start <= chars@.len(),
            chars@ == s@,
            strip_sha_prefixes(s@) == strip_sha_prefixes(s@.subrange(start as int, s@.len() as int)),
        decreases chars.len() - start,
    {
        assert(s@.subrange(start as int, s@.len() as int).subrange(7, (s@.len() - start) as int)
            =~= s@.subrange(start + 7, s@.len() as int));
        start = start + 7;
    }
    proof {
        let rest = s@.subrange(start as int, s@.len() as int);
        if rest.len() < 7 {
            assert(!starts_with_spec(rest, "sha256:"@));
        }
    }
    crate::text::string_from_range(&chars, start, chars.len())
}

/// What binds a receipt to a request: its signed body's task and verdict.
#[derive(Debug, PartialEq, Eq)]
pub struct ReceiptBinding {
    pub task_id: String,
    pub verdict: String,
}

/// The checks a receipt's signed body must pass, in order.
pub open spec fn binding_check(
    receipt: JsonModel,
    target: Seq<char>,
    contract_digest: Seq<char>,
) -> Result<(Seq<char>, Seq<char>), Seq<char>> {
    match receipt {
        JsonModel::Object(r) => match lookup(r, "body"@) {
            Some(JsonModel::Object(body)) => if body_string(body, "task_id"@) is None {
                Err("receipt body omits "@ + "task_id"@)
            } else if body_string(body, "verdict"@) is None {
                Err("receipt body omits "@ + "verdict"@)
            } else if body_string(body, "verdict"@) != Some("pass"@) {
                Err("receipt verdict is not pass"@)
            } else if body_string(body, "head_commit"@) is None {
                Err("receipt body omits "@ + "head_commit"@)
            } else if body_string(body, "head_commit"@) != Some(target) {
                Err("receipt head_commit does not match target"@)
            } else if body_string(body, "spec_fingerprint"@) is None {
                Err("receipt body omits "@ + "spec_fingerprint"@)
            } else if body_string(body, "spec_fingerprint"@) != Some(
                strip_sha_prefixes(contract_digest),
            ) {
                Err("receipt spec_fingerprint does not match contract_digest"@)
            } else {
                match lookup(body, "open_blockers"@) {
                    Some(JsonModel::Array(b)) => if b.len() == 0 {
                        Ok((body_string(body, "task_id"@)->0, "pass"@))
                    } else {
                        Err("receipt has open blockers"@)
                    },
                    _ => Err("receipt omits open_blockers"@),
                }
            },
            _ => Err("receipt omits its signed body"@),
        },
        _ => Err("receipt omits its signed body"@),
    }
}

/// A receipt's signed body, when it has one.
pub open spec fn signed_body(receipt: JsonModel) -> Option<Seq<(Seq<char>, JsonModel)>> {
    match receipt {
        JsonModel::Object(r) => match lookup(r, "body"@) {
            Some(JsonModel::Object(body)) => Some(body),
            _ => None,
        },
        _ => None,
    }
}

/// A receipt binds only the request it was signed for: an accepted receipt
/// has a signed body whose verdict is `pass`, whose head commit is the
/// requested target, whose spec fingerprint is the contract digest without
/// its `sha256:` prefixes, and which lists no open blockers; the binding
/// carries its task id. A body for another target or another contract is
/// refused.
pub proof fn lemma_receipt_binding_law(receipt: JsonModel, target: Seq<char>, contract_digest: Seq<char>)
    ensures
        binding_check(receipt, target, contract_digest) is Ok ==> {
            let body = signed_body(receipt)->0;
            &&& signed_body(receipt) is Some
            &&& body_string(body, "verdict"@) == Some("pass"@)
            &&& body_string(body, "head_commit"@) == Some(target)
            &&& body_string(body, "spec_fingerprint"@) == Some(strip_sha_prefixes(contract_digest))
            &&& lookup(body, "open_blockers"@) == Some(JsonModel::Array(Seq::empty()))
            &&& binding_check(receipt, target, contract_digest)->Ok_0 == (
                body_string(body, "task_id"@)->0,
                "pass"@,
            )
        },
        signed_body(receipt) is None ==> binding_check(receipt, target, contract_digest) is Err,
        signed_body(receipt) matches Some(body) && body_string(body, "head_commit"@) is Some && body_string(
            body,
            "head_commit"@,
        ) != Some(target) ==> binding_check(receipt, target, contract_digest) is Err,
        signed_body(receipt) matches Some(body) && body_string(body, "spec_fingerprint"@) is Some
            && body_string(body, "spec_fingerprint"@) != Some(strip_sha_prefixes(contract_digest))
            ==> binding_check(receipt, target, contract_digest) is Err,
{
    if let Some(body) = signed_body(receipt) {
        if let Some(JsonModel::Array(b)) = lookup(body, "open_blockers"@) {
            if b.len() == 0 {
                assert(b =~= Seq::<JsonModel>::empty());
            }
        }
    }
}

/// Checks that a receipt's signed body passes for exactly the requested
/// target and contract, with no open blockers.
pub fn validate_receipt_binding(receipt: &JsonValue, target: &str, contract_digest: &str) -> (r: Result<
    ReceiptBinding,
    String,
>)
    ensures
        match binding_check(receipt@, target@, contract_digest@) {
            Ok((task, verdict)) => r matches Ok(b) && b.task_id@ == task && b.verdict@ == verdict,
            Err(m) => r matches Err(x) && x@ == m,
        },
{
    let body = match receipt.as_object() {
        Some(r) => match r.get("body") {
            Some(b) => match b.as_object() {
                Some(body) => body,
                None => {
                    return Err("receipt omits its signed body".to_owned());
                },
            },
            None => {
                return Err("receipt omits its signed body".to_owned());
            },
        },
        None => {
            return Err("receipt omits its signed body".to_owned());
        },
    };
    let task_id = match required_body_string(body, "task_id") {
        Ok(s) => s,
        Err(e) => {
            return Err(e);
        },
    };
    let verdict = match required_body_string(body, "verdict") {
        Ok(s) => s,
        Err(e) => {
            return Err(e);
        },
    };
    if !str_eq(verdict.as_str(), "pass") {
        return Err("receipt verdict is not pass".to_owned());
    }
    let head = match required_body_string(body, "head_commit") {
        Ok(s) => s,
        Err(e) => {
            return Err(e);
        },
    };
    if !str_eq(head.as_str(), target) {
        return Err("receipt head_commit does not match target".to_owned());
    }
    let expected_contract = trim_sha_prefixes(contract_digest);
    let fingerprint = match required_body_string(body, "spec_fingerprint") {
        Ok(s) => s,
        Err(e) => {
            return Err(e);
        },
    };
    if !str_eq(fingerprint.as_str(), expected_contract.as_str()) {
        return Err("receipt spec_fingerprint does not match contract_digest".to_owned());
    }
    match body.get("open_blockers") {
        Some(JsonValue::Array(blockers)) => {
            if blockers.len() > 0 {
                return Err("receipt has open blockers".to_owned());
            }
        },
        _ => {
            return Err("receipt omits open_blockers".to_owned());
        },
    }
    Ok(ReceiptBinding { task_id, verdict })
}

/// The verifier to run: the configured binary unless blank, else `scafld`.
pub open spec fn verifier_spec(env: Seq<(String, String)>) -> Seq<char> {
    match env_lookup(env, SCAFLD_BIN_ENV@) {
        Some(v) => if trim_spec(v).len() > 0 {
            v
        } else {
            "scafld"@
        },
        None => "scafld"@,
    }
}

/// The verifier binary to run.
pub fn verifier_command(env: &Vec<(String, String)>) -> (r: String)
    ensures
        r@ == verifier_spec(env@),
{
    let mut i: usize = 0;
    assert(env@.subrange(0, env@.len() as int) =~= env@);
    while i < env.len()
        invariant
            i <= env@.len(),
            env_lookup(env@, SCAFLD_BIN_ENV@) == env_lookup(
                env@.subrange(i as int, env@.len() as int),
                SCAFLD_BIN_ENV@,
            ),
        decreases env.len() - i,
    {
        assert(env@.subrange(i as int, env@.len() as int).drop_first() =~= env@.subrange(
            i + 1,
            env@.len() as int,
        ));
        if str_eq(env[i].0.as_str(), SCAFLD_BIN_ENV) {
            if crate::text::is_blank(env[i].1.as_str()) {
                return "scafld".to_owned();
            }
            return env[i].1.clone();
        }
        i = i + 1;
    }
    "scafld".to_owned()
}

/// The verifier's arguments: verify the receipt for the target under the
/// repository root, as JSON.
pub fn verifier_args(receipt_path: &str, target: &str, repo_root: &str) -> (r: Vec<String>)
    ensures
        r@.len() == 7,
        r@[0]@ == "verify"@,
        r@[1]@ == receipt_path@,
        r@[2]@ == "--target"@,
        r@[3]@ == target@,
        r@[4]@ == "--root"@,
        r@[5]@ == repo_root@,
        r@[6]@ == "--json"@,
{
    let mut r: Vec<String> = Vec::new();
    r.push("verify".to_owned());
    r.push(receipt_path.to_owned());
    r.push("--target".to_owned());
    r.push(target.to_owned());
    r.push("--root".to_owned());
    r.push(repo_root.to_owned());
    r.push("--json".to_owned());
    r
}

/// What the verifier's run concludes: it must finish within its bounds,
/// succeed, and report `ok: true`.
pub open spec fn verifier_outcome_spec(
    timed_out: bool,
    truncated: bool,
    success: bool,
    output: Option<JsonModel>,
) -> Result<(), Seq<char>> {
    if timed_out || truncated {
        Err("canonical verifier exceeded runtime bounds"@)
    } else if !success {
        Err("canonical verifier rejected the receipt"@)
    } else {
        match output {
            Some(JsonModel::Object(o)) => if lookup(o, "ok"@) == Some(JsonModel::Bool(true)) {
                Ok(())
            } else {
                Err("canonical verifier did not report success"@)
            },
            _ => Err("canonical verifier did not report success"@),
        }
    }
}

/// Judges the verifier's run from its bounds, exit status and parsed output.
pub fn check_verifier_outcome(
    timed_out: bool,
    truncated: bool,
    success: bool,
    output: &JsonValue,
) -> (r: Result<(), String>)
    ensures
        match verifier_outcome_spec(timed_out, truncated, success, Some(output@)) {
            Ok(_) => r is Ok,
            Err(m) => r matches Err(x) && x@ == m,
        },
{
    if timed_out || truncated {
        return Err("canonical verifier exceeded runtime bounds".to_owned());
    }
    if !success {
        return Err("canonical verifier rejected the receipt".to_owned());
    }
    let ok = match output.as_object() {
        Some(o) => match o.get("ok") {
            Some(JsonValue::Bool(b)) => *b,
            _ => false,
        },
        None => false,
    };
    if ok {
        Ok(())
    } else {
        Err("canonical verifier did not report success".to_owned())
    }
}

/// The reference of a verified receipt.
pub fn receipt_ref(receipt_digest: &str) -> (r: String)
    ensures
        r@ == "runx:external_receipt:"@ + receipt_digest@,
{
    concat("runx:external_receipt:", receipt_digest)
}

/// The fields of a successful verification: schema, verifier, the verdict
/// bound to the task, target and contract, the receipt's reference and
/// digest, and when it was verified.
pub open spec fn verification_fields(
    task_id: Seq<char>,
    verdict: Seq<char>,
    target: Seq<char>,
    contract_digest: Seq<char>,
    receipt_digest: Seq<char>,
    verified_at: Seq<char>,
) -> Map<Seq<char>, JsonModel> {
    Map::empty().insert("schema"@, JsonModel::Str("runx.external_receipt.verification.v1"@)).insert(
        "verifier"@,
        JsonModel::Str("scafld"@),
    ).insert("verified"@, JsonModel::Bool(true)).insert("task_id"@, JsonModel::Str(task_id)).insert(
        "verdict"@,
        JsonModel::Str(verdict),
    ).insert("target"@, JsonModel::Str(target)).insert("contract_digest"@, JsonModel::Str(contract_digest)).insert(
        "receipt_ref"@,
        JsonModel::Str("runx:external_receipt:"@ + receipt_digest),
    ).insert("receipt_digest"@, JsonModel::Str(receipt_digest)).insert("verified_at"@, JsonModel::Str(verified_at))
}

/// The output of the verification tool: one `external_receipt_verification`
/// object holding the verification's fields.
pub fn verification_output(
    binding: &ReceiptBinding,
    target: &str,
    contract_digest: &str,
    receipt_digest: &str,
    verified_at: &str,
) -> (r: JsonObject)
    ensures
        exists|inner: JsonObject|
            #[trigger] inner.map() == verification_fields(
                binding.task_id@,
                binding.verdict@,
                target@,
                contract_digest@,
                receipt_digest@,
                verified_at@,
            ) && r.map() == Map::<Seq<char>, JsonModel>::empty().insert(
                "external_receipt_verification"@,
                JsonModel::Object(inner@),
            ),
{
    let mut record = JsonObject::new();
    record.insert("schema".to_owned(), JsonValue::String("runx.external_receipt.verification.v1".to_owned()));
    record.insert("verifier".to_owned(), JsonValue::String("scafld".to_owned()));
    record.insert("verified".to_owned(), JsonValue::Bool(true));
    record.insert("task_id".to_owned(), JsonValue::String(binding.task_id.clone()));
    record.insert("verdict".to_owned(), JsonValue::String(binding.verdict.clone()));
    record.insert("target".to_owned(), JsonValue::String(target.to_owned()));
    record.insert("contract_digest".to_owned(), JsonValue::String(contract_digest.to_owned()));
    record.insert("receipt_ref".to_owned(), JsonValue::String(receipt_ref(receipt_digest)));
    record.insert("receipt_digest".to_owned(), JsonValue::String(receipt_digest.to_owned()));
    record.insert("verified_at".to_owned(), JsonValue::String(verified_at.to_owned()));
    let ghost inner = record;
    let mut output = JsonObject::new();
    output.insert("external_receipt_verification".to_owned(), JsonValue::Object(record));
    assert(inner.map() == verification_fields(
        binding.task_id@,
        binding.verdict@,
        target@,
        contract_digest@,
        receipt_digest@,
        verified_at@,
    ));
    output
}

} // verus!
