//! Hosted provider operations: identifiers, request bodies, and the
//! bounded readback a provider must return before its result is trusted.
use vstd::prelude::*;

use crate::json::{clone_value, has_key, lemma_array_model, lookup, JsonModel, JsonObject, JsonValue};
use crate::text::{
    chars_of, concat, debug_quoted, debug_str, is_ascii_digit, is_ascii_lower, is_control_char, lemma_split_nonempty, owned, split_spec, str_eq, trim,
    trim_spec,
};

verus! {

/// `{:?}` of an optional string.
pub open spec fn debug_option(s: Option<Seq<char>>) -> Seq<char> {
    match s {
        Some(v) => "Some("@ + debug_quoted(v) + ")"@,
        None => "None"@,
    }
}

fn debug_option_str(s: Option<&str>) -> (r: String)
    ensures
        r@ == debug_option(
            match s {
                Some(v) => Some(v@),
                None => None,
            },
        ),
{
    match s {
        Some(v) => {
            let inner = debug_str(v);
            let head = concat("Some(", inner.as_str());
            concat(head.as_str(), ")")
        },
        None => "None".to_owned(),
    }
}

/// Why a provider operation failed.
#[derive(Debug, PartialEq, Eq)]
pub enum ProviderOperationError {
    InvalidGrantId,
    InvalidOperation,
    InvalidResponse(String),
}

impl ProviderOperationError {
    /// The error's message.
    pub fn message(&self) -> (r: String)
        ensures
            self matches ProviderOperationError::InvalidResponse(m) ==> r@ == m@,
            self is InvalidGrantId ==> r@ == "provider grant id is invalid"@,
            self is InvalidOperation ==> r@ == "provider operation is invalid"@,
    {
        match self {
            ProviderOperationError::InvalidGrantId => "provider grant id is invalid".to_owned(),
            ProviderOperationError::InvalidOperation => "provider operation is invalid".to_owned(),
            ProviderOperationError::InvalidResponse(m) => m.clone(),
        }
    }
}

pub open spec fn invalid_response(e: ProviderOperationError, m: Seq<char>) -> bool {
    e matches ProviderOperationError::InvalidResponse(x) && x@ == m
}

/// The access an operation is expected to have.
#[derive(Clone, Copy, Debug, PartialEq, Eq)]
pub enum ProviderOperationAccess {
    Read,
    Mutate,
}

pub open spec fn access_name(a: ProviderOperationAccess) -> Seq<char> {
    match a {
        ProviderOperationAccess::Read => "read"@,
        ProviderOperationAccess::Mutate => "mutate"@,
    }
}

impl ProviderOperationAccess {
    /// The access's wire name.
    pub fn as_str(self) -> (r: &'static str)
        ensures
            r@ == access_name(self),
    {
        match self {
            ProviderOperationAccess::Read => "read",
            ProviderOperationAccess::Mutate => "mutate",
        }
    }
}

/// A request to run an operation under a provider grant.
#[derive(Debug, PartialEq)]
pub struct ProviderOperationRequest {
    pub grant_id: String,
    pub operation: String,
    pub target: String,
    pub input: JsonObject,
    pub expected_access: Option<ProviderOperationAccess>,
}

/// A provider grant as the hosted service lists it.
#[derive(Clone, Debug, PartialEq, Eq)]
pub struct HostedProviderGrant {
    pub grant_id: String,
    pub provider: String,
    pub scopes: Vec<String>,
    pub status: String,
}

// ---------------------------------------------------------------------------
// Identifiers
// ---------------------------------------------------------------------------
pub open spec fn grant_id_forbidden(c: char) -> bool {
    is_control_char(c) || c == '/' || c == '?' || c == '#'
}

/// A grant id, once trimmed: non-empty, at most 200 bytes of UTF-8, no
/// control character and none of `/`, `?`, `#`.
pub open spec fn valid_grant_id(s: Seq<char>) -> bool {
    let t = trim_spec(s);
    &&& t.len() > 0
    &&& vstd::utf8::encode_utf8(t).len() <= 200
    &&& forall|i: int| 0 <= i < t.len() ==> !grant_id_forbidden(#[trigger] t[i])
}

fn is_control(c: char) -> (r: bool)
    ensures
        r == is_control_char(c),
{
    let u = c as u32;
    u <= 0x1f || (0x7f <= u && u <= 0x9f)
}

/// Accepts a grant id that is safe to place in a request.
pub fn validate_provider_grant_id(value: &str) -> (r: Result<(), ProviderOperationError>)
    ensures
        r is Ok <==> valid_grant_id(value@),
        r matches Err(e) ==> e is InvalidGrantId,
{
    let t = trim(value);
    let bytes = t.as_str().as_bytes();
    if t.as_str().unicode_len() == 0 || bytes.len() > 200 {
        return Err(ProviderOperationError::InvalidGrantId);
    }
    let chars = chars_of(t.as_str());
    let mut i: usize = 0;
    while i < chars.len()
        invariant
            i <= chars@.len(),
            chars@ == trim_spec(value@),
            forall|j: int| 0 <= j < i ==> !grant_id_forbidden(#[trigger] chars@[j]),
        decreases chars.len() - i,
    {
        let c = chars[i];
        if is_control(c) || c == '/' || c == '?' || c == '#' {
            assert(grant_id_forbidden(chars@[i as int]));
            return Err(ProviderOperationError::InvalidGrantId);
        }
        i = i + 1;
    }
    Ok(())
}

/// An operation name, once trimmed: at least two dot-separated segments,
/// each a lowercase ASCII letter followed by lowercase letters and digits,
/// and at most 100 bytes.
pub open spec fn valid_operation(s: Seq<char>) -> bool {
    let t = trim_spec(s);
    &&& 0 < t.len() <= 100
    &&& is_ascii_lower(t[0])
    &&& exists|i: int| 0 <= i < t.len() && #[trigger] t[i] == '.'
    &&& forall|i: int|
        0 <= i < t.len() ==> is_ascii_lower(#[trigger] t[i]) || is_ascii_digit(t[i]) || (t[i]
            == '.' && i + 1 < t.len() && is_ascii_lower(t[i + 1]))
}

/// A segment of an operation name: a lowercase ASCII letter, then lowercase
/// letters and digits.
pub open spec fn valid_operation_segment(g: Seq<char>) -> bool {
    &&& g.len() > 0
    &&& is_ascii_lower(g[0])
    &&& forall|k: int| 1 <= k < g.len() ==> is_ascii_lower(#[trigger] g[k]) || is_ascii_digit(g[k])
}

/// A segment still being read: empty, or a valid segment so far.
pub open spec fn segment_prefix_ok(g: Seq<char>) -> bool {
    g.len() == 0 || valid_operation_segment(g)
}

/// Every character is a lowercase letter, a digit or a dot, and every
/// segment start holds a lowercase letter.
pub open spec fn operation_chars_ok(s: Seq<char>) -> bool {
    forall|i: int| 0 <= i < s.len() ==> #[trigger] char_ok_at(s, i)
}

/// The character at `i` is a lowercase letter, a digit or a dot, and a
/// lowercase letter when a segment starts there.
pub open spec fn char_ok_at(s: Seq<char>, i: int) -> bool {
    (is_ascii_lower(s[i]) || is_ascii_digit(s[i]) || s[i] == '.') && ((i == 0 || s[i - 1] == '.')
        ==> is_ascii_lower(s[i]))
}

/// The segments read so far: all but the last complete and valid, the last
/// a valid prefix.
pub open spec fn segments_so_far_ok(segs: Seq<Seq<char>>) -> bool {
    &&& forall|j: int| 0 <= j < segs.len() - 1 ==> valid_operation_segment(#[trigger] segs[j])
    &&& segment_prefix_ok(segs.last())
}

proof fn lemma_last_segment_empty(s: Seq<char>)
    ensures
        split_spec(s, '.').len() >= 1,
        (split_spec(s, '.').last().len() == 0) == (s.len() == 0 || s.last() == '.'),
{
    lemma_split_nonempty(s, '.');
    if s.len() > 0 {
        lemma_split_nonempty(s.drop_last(), '.');
    }
}

/// What the next character allows: a segment's first character must be a
/// lowercase letter, a later one a lowercase letter or a digit.
pub open spec fn next_char_ok(at_segment_start: bool, x: char) -> bool {
    if at_segment_start {
        is_ascii_lower(x)
    } else {
        is_ascii_lower(x) || is_ascii_digit(x)
    }
}

proof fn lemma_segments_dot(p: Seq<char>)
    ensures
        segments_so_far_ok(split_spec(p.push('.'), '.')) == (segments_so_far_ok(split_spec(p, '.'))
            && split_spec(p, '.').last().len() > 0),
{
    lemma_split_nonempty(p, '.');
    let s = p.push('.');
    assert(s.drop_last() =~= p);
    let sp = split_spec(p, '.');
    let ss = split_spec(s, '.');
    assert(ss == sp.push(Seq::<char>::empty()));
    if segments_so_far_ok(ss) {
        assert forall|j: int| 0 <= j < sp.len() - 1 implies valid_operation_segment(#[trigger] sp[j]) by {
            assert(ss[j] == sp[j]);
        }
        assert(ss[sp.len() - 1] == sp.last());
    }
    if segments_so_far_ok(sp) && sp.last().len() > 0 {
        assert forall|j: int| 0 <= j < ss.len() - 1 implies valid_operation_segment(#[trigger] ss[j]) by {
            assert(ss[j] == sp[j]);
            if j == sp.len() - 1 {
                assert(sp[j] == sp.last());
            }
        }
    }
}

proof fn lemma_segments_char(p: Seq<char>, x: char)
    requires
        x != '.',
    ensures
        segments_so_far_ok(split_spec(p.push(x), '.')) == (segments_so_far_ok(split_spec(p, '.'))
            && next_char_ok(split_spec(p, '.').last().len() == 0, x)),
{
    lemma_split_nonempty(p, '.');
    let s = p.push(x);
    assert(s.drop_last() =~= p);
    let sp = split_spec(p, '.');
    let ss = split_spec(s, '.');
    let g = sp.last();
    let h = g.push(x);
    assert(ss == sp.update(sp.len() - 1, h));
    assert(ss.last() == h);
    if segments_so_far_ok(ss) {
        assert forall|j: int| 0 <= j < sp.len() - 1 implies valid_operation_segment(#[trigger] sp[j]) by {
            assert(ss[j] == sp[j]);
        }
        if g.len() > 0 {
            assert forall|k: int| 1 <= k < g.len() implies is_ascii_lower(#[trigger] g[k]) || is_ascii_digit(g[k]) by {
                assert(h[k] == g[k]);
            }
            assert(h[0] == g[0]);
            assert(h[g.len() as int] == x);
        } else {
            assert(h[0] == x);
        }
    }
    if segments_so_far_ok(sp) && next_char_ok(g.len() == 0, x) {
        assert forall|j: int| 0 <= j < ss.len() - 1 implies valid_operation_segment(#[trigger] ss[j]) by {
            assert(ss[j] == sp[j]);
        }
        assert forall|k: int| 1 <= k < h.len() implies is_ascii_lower(#[trigger] h[k]) || is_ascii_digit(h[k]) by {
            if k < g.len() {
                assert(h[k] == g[k]);
            }
        }
        if g.len() > 0 {
            assert(h[0] == g[0]);
        }
    }
}

proof fn lemma_chars_push(p: Seq<char>, x: char)
    ensures
        operation_chars_ok(p.push(x)) == (operation_chars_ok(p) && (is_ascii_lower(x) || is_ascii_digit(x) || x
            == '.') && ((p.len() == 0 || p.last() == '.') ==> is_ascii_lower(x))),
{
    let s = p.push(x);
    let n = p.len() as int;
    if operation_chars_ok(s) {
        assert forall|i: int| 0 <= i < p.len() implies #[trigger] char_ok_at(p, i) by {
            assert(char_ok_at(s, i));
            assert(s[i] == p[i]);
            if i > 0 {
                assert(s[i - 1] == p[i - 1]);
            }
        }
        assert(char_ok_at(s, n));
        assert(s[n] == x);
        if n > 0 {
            assert(s[n - 1] == p.last());
        }
    }
    if operation_chars_ok(p) && (is_ascii_lower(x) || is_ascii_digit(x) || x == '.') && ((p.len() == 0
        || p.last() == '.') ==> is_ascii_lower(x)) {
        assert forall|i: int| 0 <= i < s.len() implies #[trigger] char_ok_at(s, i) by {
            if i < n {
                assert(char_ok_at(p, i));
                assert(s[i] == p[i]);
                if i > 0 {
                    assert(s[i - 1] == p[i - 1]);
                }
            } else {
                assert(s[i] == x);
                if n > 0 {
                    assert(s[i - 1] == p.last());
                }
            }
        }
    }
}

proof fn lemma_segments_chars(s: Seq<char>)
    ensures
        segments_so_far_ok(split_spec(s, '.')) == operation_chars_ok(s),
    decreases s.len(),
{
    lemma_split_nonempty(s, '.');
    if s.len() == 0 {
        assert(split_spec(s, '.') =~= seq![Seq::<char>::empty()]);
    } else {
        let p = s.drop_last();
        let x = s.last();
        assert(s =~= p.push(x));
        lemma_segments_chars(p);
        lemma_last_segment_empty(p);
        lemma_chars_push(p, x);
        if x == '.' {
            lemma_segments_dot(p);
        } else {
            lemma_segments_char(p, x);
        }
    }
}

proof fn lemma_segment_count(s: Seq<char>)
    ensures
        (split_spec(s, '.').len() >= 2) == (exists|i: int| 0 <= i < s.len() && #[trigger] s[i] == '.'),
    decreases s.len(),
{
    lemma_split_nonempty(s, '.');
    if s.len() > 0 {
        let p = s.drop_last();
        lemma_segment_count(p);
        lemma_split_nonempty(p, '.');
        if exists|i: int| 0 <= i < p.len() && #[trigger] p[i] == '.' {
            let i = choose|i: int| 0 <= i < p.len() && #[trigger] p[i] == '.';
            assert(s[i] == '.');
        }
        if exists|i: int| 0 <= i < s.len() && #[trigger] s[i] == '.' {
            let i = choose|i: int| 0 <= i < s.len() && #[trigger] s[i] == '.';
            if i < p.len() {
                assert(p[i] == '.');
            }
        }
    }
}

/// The per-character form of an operation name.
pub open spec fn operation_char_form(t: Seq<char>) -> bool {
    &&& 0 < t.len()
    &&& is_ascii_lower(t[0])
    &&& forall|i: int| 0 <= i < t.len() ==> #[trigger] op_char_at(t, i)
}

pub open spec fn op_char_at(t: Seq<char>, i: int) -> bool {
    is_ascii_lower(t[i]) || is_ascii_digit(t[i]) || (t[i] == '.' && i + 1 < t.len() && is_ascii_lower(t[i + 1]))
}

proof fn lemma_char_form_forward(t: Seq<char>)
    requires
        operation_char_form(t),
    ensures
        operation_chars_ok(t) && t.len() > 0 && t.last() != '.',
{
    assert forall|i: int| 0 <= i < t.len() implies #[trigger] char_ok_at(t, i) by {
        assert(op_char_at(t, i));
        if i > 0 && t[i - 1] == '.' {
            assert(op_char_at(t, i - 1));
        }
    }
    assert(op_char_at(t, t.len() - 1));
    assert(op_char_at(t, 0));
}

proof fn lemma_char_form_backward(t: Seq<char>)
    requires
        operation_chars_ok(t),
        t.len() > 0,
        t.last() != '.',
    ensures
        operation_char_form(t),
{
    assert(char_ok_at(t, 0));
    assert forall|i: int| 0 <= i < t.len() implies #[trigger] op_char_at(t, i) by {
        assert(char_ok_at(t, i));
        if t[i] == '.' {
            if i + 1 >= t.len() {
                assert(t[i] == t.last());
            }
            assert(char_ok_at(t, i + 1));
        }
    }
}

proof fn lemma_char_form(t: Seq<char>)
    ensures
        operation_char_form(t) == (operation_chars_ok(t) && t.len() > 0 && t.last() != '.'),
{
    if operation_char_form(t) {
        lemma_char_form_forward(t);
    }
    if operation_chars_ok(t) && t.len() > 0 && t.last() != '.' {
        lemma_char_form_backward(t);
    }
}

/// All of the segments are valid exactly when those read so far are and
/// the last is not empty.
proof fn lemma_all_segments(segs: Seq<Seq<char>>)
    requires
        segs.len() >= 1,
    ensures
        (forall|j: int| 0 <= j < segs.len() ==> valid_operation_segment(#[trigger] segs[j])) == (segments_so_far_ok(
            segs,
        ) && segs.last().len() > 0),
{
    if forall|j: int| 0 <= j < segs.len() ==> valid_operation_segment(#[trigger] segs[j]) {
        assert(valid_operation_segment(segs[segs.len() - 1]));
    }
    if segments_so_far_ok(segs) && segs.last().len() > 0 {
        assert forall|j: int| 0 <= j < segs.len() implies valid_operation_segment(#[trigger] segs[j]) by {
            if j == segs.len() - 1 {
                assert(segs[j] == segs.last());
            }
        }
    }
}

/// An operation name is valid exactly when, trimmed, it is at most 100
/// characters long and splits at its dots into at least two segments, each
/// a lowercase ASCII letter followed by lowercase letters and digits.
pub proof fn lemma_operation_segments(value: Seq<char>)
    ensures
        valid_operation(value) == ({
            let t = trim_spec(value);
            let segs = split_spec(t, '.');
            &&& t.len() <= 100
            &&& segs.len() >= 2
            &&& forall|j: int| 0 <= j < segs.len() ==> valid_operation_segment(#[trigger] segs[j])
        }),
{
    let t = trim_spec(value);
    let segs = split_spec(t, '.');
    lemma_segments_chars(t);
    lemma_segment_count(t);
    lemma_last_segment_empty(t);
    lemma_char_form(t);
    lemma_all_segments(segs);
    if valid_operation(value) {
        assert forall|i: int| 0 <= i < t.len() implies #[trigger] op_char_at(t, i) by {
            assert(is_ascii_lower(t[i]) || is_ascii_digit(t[i]) || (t[i] == '.' && i + 1 < t.len()
                && is_ascii_lower(t[i + 1])));
        }
    }
    if operation_char_form(t) && t.len() <= 100 && (exists|i: int| 0 <= i < t.len() && #[trigger] t[i] == '.') {
        assert forall|i: int| 0 <= i < t.len() implies is_ascii_lower(#[trigger] t[i]) || is_ascii_digit(t[i])
            || (t[i] == '.' && i + 1 < t.len() && is_ascii_lower(t[i + 1])) by {
            assert(op_char_at(t, i));
        }
    }
}

/// A readback is trusted only for what was asked: an accepted readback
/// reports success, names exactly the requested operation and target
/// (surrounding whitespace aside), the requested access when one was
/// expected, and a result; for a mutation it echoes the request's
/// idempotency key. A response for another operation or target is refused,
/// and the projection of an accepted one carries the requested operation
/// and target.
pub proof fn lemma_readback_binds_request(e: Seq<(Seq<char>, JsonModel)>, request: ProviderOperationRequest)
    ensures
        readback_check(e, request) is Ok ==> {
            &&& lookup(e, "status"@) == Some(JsonModel::Str("success"@))
            &&& (lookup(e, "operation"@) matches Some(JsonModel::Str(o)) && trim_spec(o) == request.operation@)
            &&& (lookup(e, "target"@) matches Some(JsonModel::Str(g)) && trim_spec(g) == request.target@)
            &&& (request.expected_access matches Some(a) ==> lookup(e, "access"@) == Some(
                JsonModel::Str(access_name(a)),
            ))
            &&& has_key(e, "result"@)
            &&& (request.expected_access == Some(ProviderOperationAccess::Mutate) ==> (lookup(
                e,
                "idempotency_key"@,
            ) matches Some(JsonModel::Str(k)) && (lookup(request.input@, "idempotency_key"@) matches Some(
                JsonModel::Str(q),
            ) && trim_spec(k) == trim_spec(q) && trim_spec(q).len() > 0)))
        },
        (lookup(e, "operation"@) matches Some(JsonModel::Str(o)) && trim_spec(o) != request.operation@)
            ==> readback_check(e, request) is Err,
        (lookup(e, "target"@) matches Some(JsonModel::Str(g)) && trim_spec(g) != request.target@)
            ==> readback_check(e, request) is Err,
        readback_check(e, request) is Ok ==> (readback_projection(e) matches Ok(m) && m["operation"@]
            == JsonModel::Str(request.operation@) && m["target"@] == JsonModel::Str(request.target@)),
{
    reveal_strlit("success");
    reveal_strlit("operation");
    reveal_strlit("target");
    reveal_strlit("result");
    reveal_strlit("operation_id");
    reveal_strlit("idempotency_key");
    reveal_strlit("readback_ref");
    assert("operation"@ != "target"@ && "operation"@ != "result"@ && "operation"@ != "operation_id"@
        && "operation"@ != "idempotency_key"@ && "operation"@ != "readback_ref"@) by {
        assert("operation"@.len() != "operation_id"@.len());
        assert("operation"@[0] != "target"@[0] && "operation"@[0] != "result"@[0]);
        assert("operation"@[0] != "idempotency_key"@[0] && "operation"@[0] != "readback_ref"@[0]);
    }
    assert("target"@ != "result"@ && "target"@ != "operation_id"@ && "target"@ != "idempotency_key"@
        && "target"@ != "readback_ref"@) by {
        assert("target"@[0] != "result"@[0] && "target"@[0] != "operation_id"@[0]);
        assert("target"@[0] != "idempotency_key"@[0] && "target"@[0] != "readback_ref"@[0]);
    }
    if readback_check(e, request) is Ok {
        if string_field(e, "status"@) == Some("success"@) {
            assert(lookup(e, "status"@) == Some(JsonModel::Str("success"@)));
        }
    }
}

/// Accepts `provider.action` style operation names.
pub fn validate_provider_operation(value: &str) -> (r: Result<(), ProviderOperationError>)
    ensures
        r is Ok <==> valid_operation(value@),
        r matches Err(e) ==> e is InvalidOperation,
{
    let t = trim(value);
    let chars = chars_of(t.as_str());
    let n = chars.len();
    if n == 0 || n > 100 {
        return Err(ProviderOperationError::InvalidOperation);
    }
    if !(chars[0] >= 'a' && chars[0] <= 'z') {
        return Err(ProviderOperationError::InvalidOperation);
    }
    let mut dots: usize = 0;
    let mut i: usize = 0;
    while i < n
        invariant
            i <= n == chars@.len(),
            chars@ == trim_spec(value@),
            dots <= i,
            dots > 0 <==> exists|j: int| 0 <= j < i && #[trigger] chars@[j] == '.',
            forall|j: int|
                0 <= j < i ==> is_ascii_lower(#[trigger] chars@[j]) || is_ascii_digit(chars@[j])
                    || (chars@[j] == '.' && j + 1 < n && is_ascii_lower(chars@[j + 1])),
        decreases n - i,
    {
        let c = chars[i];
        if c == '.' {
            if !(i + 1 < n && chars[i + 1] >= 'a' && chars[i + 1] <= 'z') {
                assert(!(is_ascii_lower(chars@[i as int]) || is_ascii_digit(chars@[i as int]) || (
                chars@[i as int] == '.' && i + 1 < n && is_ascii_lower(chars@[i + 1]))));
                return Err(ProviderOperationError::InvalidOperation);
            }
            dots = dots + 1;
        } else if !((c >= 'a' && c <= 'z') || (c >= '0' && c <= '9')) {
            assert(!(is_ascii_lower(chars@[i as int]) || is_ascii_digit(chars@[i as int]) || (
            chars@[i as int] == '.' && i + 1 < n && is_ascii_lower(chars@[i + 1]))));
            return Err(ProviderOperationError::InvalidOperation);
        }
        i = i + 1;
    }
    if dots == 0 {
        return Err(ProviderOperationError::InvalidOperation);
    }
    Ok(())
}

// ---------------------------------------------------------------------------
// Responses
// ---------------------------------------------------------------------------
/// A field that must be a non-blank string, trimmed.
pub open spec fn required_string(e: Seq<(Seq<char>, JsonModel)>, field: Seq<char>) -> Option<
    Seq<char>,
> {
    match lookup(e, field) {
        Some(JsonModel::Str(s)) => if trim_spec(s).len() > 0 {
            Some(trim_spec(s))
        } else {
            None
        },
        _ => None,
    }
}

pub open spec fn required_message(field: Seq<char>) -> Seq<char> {
    "response "@ + field + " must be a non-empty string"@
}

/// The trimmed string under `field`, which must be non-blank.
fn required_response_string(object: &JsonObject, field: &str) -> (r: Result<
    String,
    ProviderOperationError,
>)
    ensures
        match required_string(object@, field@) {
            Some(s) => r matches Ok(x) && x@ == s,
            None => r matches Err(e) && invalid_response(e, required_message(field@)),
        },
{
    match object.get(field) {
        Some(JsonValue::String(s)) => {
            let t = trim(s.as_str());
            if t.as_str().unicode_len() > 0 {
                return Ok(t);
            }
        },
        _ => {},
    }
    let head = concat("response ", field);
    Err(ProviderOperationError::InvalidResponse(concat(head.as_str(), " must be a non-empty string")))
}

/// The string under `field`, untrimmed.
pub open spec fn string_field(e: Seq<(Seq<char>, JsonModel)>, field: Seq<char>) -> Option<
    Seq<char>,
> {
    match lookup(e, field) {
        Some(JsonModel::Str(s)) => Some(s),
        _ => None,
    }
}

fn string_field_of<'a>(object: &'a JsonObject, field: &str) -> (r: Option<&'a String>)
    ensures
        match string_field(object@, field@) {
            Some(s) => r matches Some(x) && x@ == s,
            None => r is None,
        },
{
    match object.get(field) {
        Some(JsonValue::String(s)) => Some(s),
        _ => None,
    }
}

/// The checks a provider's readback must pass, in order: success status,
/// provider, the requested operation and target, the expected access, a
/// result, a readback reference, and for mutations the operation id and
/// the runtime-derived idempotency key.
pub open spec fn readback_check(
    e: Seq<(Seq<char>, JsonModel)>,
    request: ProviderOperationRequest,
) -> Result<(), Seq<char>> {
    let access = string_field(e, "access"@);
    if string_field(e, "status"@) != Some("success"@) {
        Err("response status is not success"@)
    } else if required_string(e, "provider"@) is None {
        Err(required_message("provider"@))
    } else if required_string(e, "operation"@) is None {
        Err(required_message("operation"@))
    } else if required_string(e, "operation"@)->0 != request.operation@ {
        Err(
            "response operation "@ + debug_quoted(required_string(e, "operation"@)->0)
                + " does not match requested operation "@ + debug_quoted(request.operation@),
        )
    } else if required_string(e, "target"@) is None {
        Err(required_message("target"@))
    } else if required_string(e, "target"@)->0 != request.target@ {
        Err(
            "response target "@ + debug_quoted(required_string(e, "target"@)->0)
                + " does not match requested target "@ + debug_quoted(request.target@),
        )
    } else if request.expected_access is Some && access != Some(
        access_name(request.expected_access->0),
    ) {
        Err(
            "response access "@ + debug_option(access) + " does not match requested access "@
                + debug_quoted(access_name(request.expected_access->0)),
        )
    } else if !has_key(e, "result"@) {
        Err("response result is missing"@)
    } else if required_string(e, "readback_ref"@) is None {
        Err(required_message("readback_ref"@))
    } else if request.expected_access == Some(ProviderOperationAccess::Mutate) {
        if required_string(e, "operation_id"@) is None {
            Err(required_message("operation_id"@))
        } else if required_string(request.input@, "idempotency_key"@) is None {
            Err(required_message("idempotency_key"@))
        } else if required_string(e, "idempotency_key"@) is None {
            Err(required_message("idempotency_key"@))
        } else if required_string(e, "idempotency_key"@) != required_string(
            request.input@,
            "idempotency_key"@,
        ) {
            Err("response idempotency_key does not match the runtime-derived request key"@)
        } else {
            Ok(())
        }
    } else {
        Ok(())
    }
}

fn mismatch(prefix: &str, actual: &str, middle: &str, requested: &str) -> (r: ProviderOperationError)
    ensures
        invalid_response(r, prefix@ + debug_quoted(actual@) + middle@ + debug_quoted(requested@)),
{
    let q = debug_str(actual);
    let a = concat(prefix, q.as_str());
    let b = concat(a.as_str(), middle);
    let g = debug_str(requested);
    ProviderOperationError::InvalidResponse(concat(b.as_str(), g.as_str()))
}

/// Checks a provider's readback against the request before its result is
/// trusted.
pub fn validate_operation_readback(response: &JsonObject, request: &ProviderOperationRequest) -> (r:
    Result<(), ProviderOperationError>)
    ensures
        match readback_check(response@, *request) {
            Ok(_) => r is Ok,
            Err(m) => r matches Err(e) && invalid_response(e, m),
        },
{
    let success = match string_field_of(response, "status") {
        Some(s) => str_eq(s.as_str(), "success"),
        None => false,
    };
    if !success {
        return Err(ProviderOperationError::InvalidResponse("response status is not success".to_owned()));
    }
    match required_response_string(response, "provider") {
        Err(e) => {
            return Err(e);
        },
        Ok(_) => {},
    }
    let operation = match required_response_string(response, "operation") {
        Err(e) => {
            return Err(e);
        },
        Ok(s) => s,
    };
    if !str_eq(operation.as_str(), request.operation.as_str()) {
        return Err(
            mismatch(
                "response operation ",
                operation.as_str(),
                " does not match requested operation ",
                request.operation.as_str(),
            ),
        );
    }
    let target = match required_response_string(response, "target") {
        Err(e) => {
            return Err(e);
        },
        Ok(s) => s,
    };
    if !str_eq(target.as_str(), request.target.as_str()) {
        return Err(
            mismatch(
                "response target ",
                target.as_str(),
                " does not match requested target ",
                request.target.as_str(),
            ),
        );
    }
    let access: Option<&str> = match string_field_of(response, "access") {
        Some(s) => Some(s.as_str()),
        None => None,
    };
    match request.expected_access {
        Some(expected) => {
            let name = expected.as_str();
            let same = match access {
                Some(a) => str_eq(a, name),
                None => false,
            };
            if !same {
                let a = concat("response access ", debug_option_str(access).as_str());
                let b = concat(a.as_str(), " does not match requested access ");
                let q = debug_str(name);
                return Err(ProviderOperationError::InvalidResponse(concat(b.as_str(), q.as_str())));
            }
        },
        None => {},
    }
    if !response.contains_key("result") {
        return Err(ProviderOperationError::InvalidResponse("response result is missing".to_owned()));
    }
    match required_response_string(response, "readback_ref") {
        Err(e) => {
            return Err(e);
        },
        Ok(_) => {},
    }
    if matches!(request.expected_access, Some(ProviderOperationAccess::Mutate)) {
        match required_response_string(response, "operation_id") {
            Err(e) => {
                return Err(e);
            },
            Ok(_) => {},
        }
        let expected_key = match required_response_string(&request.input, "idempotency_key") {
            Err(e) => {
                return Err(e);
            },
            Ok(s) => s,
        };
        let actual_key = match required_response_string(response, "idempotency_key") {
            Err(e) => {
                return Err(e);
            },
            Ok(s) => s,
        };
        if !str_eq(actual_key.as_str(), expected_key.as_str()) {
            return Err(
                ProviderOperationError::InvalidResponse(
                    "response idempotency_key does not match the runtime-derived request key".to_owned(),
                ),
            );
        }
    }
    Ok(())
}

/// The bounded readback handed on: success status, provider, operation,
/// target and result, plus the operation id, idempotency key and readback
/// reference when the provider returned them.
pub open spec fn readback_projection(e: Seq<(Seq<char>, JsonModel)>) -> Result<
    Map<Seq<char>, JsonModel>,
    Seq<char>,
> {
    if required_string(e, "provider"@) is None {
        Err(required_message("provider"@))
    } else if required_string(e, "operation"@) is None {
        Err(required_message("operation"@))
    } else if required_string(e, "target"@) is None {
        Err(required_message("target"@))
    } else if !has_key(e, "result"@) {
        Err("response result is missing"@)
    } else {
        let base = Map::<Seq<char>, JsonModel>::empty().insert(
            "status"@,
            JsonModel::Str("success"@),
        ).insert("provider"@, JsonModel::Str(required_string(e, "provider"@)->0)).insert(
            "operation"@,
            JsonModel::Str(required_string(e, "operation"@)->0),
        ).insert("target"@, JsonModel::Str(required_string(e, "target"@)->0)).insert(
            "result"@,
            lookup(e, "result"@)->0,
        );
        Ok(copy_if_present(copy_if_present(copy_if_present(base, e, "operation_id"@), e, "idempotency_key"@), e, "readback_ref"@))
    }
}

pub open spec fn copy_if_present(
    m: Map<Seq<char>, JsonModel>,
    e: Seq<(Seq<char>, JsonModel)>,
    field: Seq<char>,
) -> Map<Seq<char>, JsonModel> {
    if has_key(e, field) {
        m.insert(field, lookup(e, field)->0)
    } else {
        m
    }
}

fn copy_field(readback: &mut JsonObject, response: &JsonObject, field: &str)
    ensures
        final(readback).map() == copy_if_present(old(readback).map(), response@, field@),
{
    match response.get(field) {
        Some(value) => {
            readback.insert(field.to_owned(), clone_value(value));
        },
        None => {},
    }
}

/// Projects a checked provider response onto the readback handed on.
pub fn project_operation_readback(response: &JsonObject) -> (r: Result<
    JsonObject,
    ProviderOperationError,
>)
    ensures
        match readback_projection(response@) {
            Ok(m) => r matches Ok(o) && o.map() == m,
            Err(msg) => r matches Err(e) && invalid_response(e, msg),
        },
{
    let provider = match required_response_string(response, "provider") {
        Err(e) => {
            return Err(e);
        },
        Ok(s) => s,
    };
    let operation = match required_response_string(response, "operation") {
        Err(e) => {
            return Err(e);
        },
        Ok(s) => s,
    };
    let target = match required_response_string(response, "target") {
        Err(e) => {
            return Err(e);
        },
        Ok(s) => s,
    };
    let result = match response.get("result") {
        Some(v) => clone_value(v),
        None => {
            return Err(ProviderOperationError::InvalidResponse("response result is missing".to_owned()));
        },
    };
    let mut readback = JsonObject::new();
    readback.insert("status".to_owned(), JsonValue::String("success".to_owned()));
    readback.insert("provider".to_owned(), JsonValue::String(provider));
    readback.insert("operation".to_owned(), JsonValue::String(operation));
    readback.insert("target".to_owned(), JsonValue::String(target));
    readback.insert("result".to_owned(), result);
    assert(readback.map() =~= Map::<Seq<char>, JsonModel>::empty().insert(
        "status"@,
        JsonModel::Str("success"@),
    ).insert("provider"@, JsonModel::Str(required_string(response@, "provider"@)->0)).insert(
        "operation"@,
        JsonModel::Str(required_string(response@, "operation"@)->0),
    ).insert("target"@, JsonModel::Str(required_string(response@, "target"@)->0)).insert(
        "result"@,
        lookup(response@, "result"@)->0,
    ));
    copy_field(&mut readback, response, "operation_id");
    copy_field(&mut readback, response, "idempotency_key");
    copy_field(&mut readback, response, "readback_ref");
    Ok(readback)
}

/// Checks a provider response against its request, then projects it.
pub fn parse_provider_operation_response(
    response: &JsonObject,
    request: &ProviderOperationRequest,
) -> (r: Result<JsonObject, ProviderOperationError>)
    ensures
        match readback_check(response@, *request) {
            Err(m) => r matches Err(e) && invalid_response(e, m),
            Ok(_) => match readback_projection(response@) {
                Ok(m) => r matches Ok(o) && o.map() == m,
                Err(msg) => r matches Err(e) && invalid_response(e, msg),
            },
        },
{
    match validate_operation_readback(response, request) {
        Err(e) => {
            return Err(e);
        },
        Ok(()) => {},
    }
    project_operation_readback(response)
}

/// The body of a provider operation request.
pub open spec fn request_body(request: ProviderOperationRequest) -> Map<Seq<char>, JsonModel> {
    let base = Map::<Seq<char>, JsonModel>::empty().insert(
        "grant_id"@,
        JsonModel::Str(request.grant_id@),
    ).insert("operation"@, JsonModel::Str(request.operation@)).insert(
        "target"@,
        JsonModel::Str(request.target@),
    ).insert("input"@, JsonModel::Object(request.input@));
    match request.expected_access {
        Some(a) => base.insert("access"@, JsonModel::Str(access_name(a))),
        None => base,
    }
}

/// Validates a request's grant id and operation and builds its body.
pub fn provider_operation_body(request: &ProviderOperationRequest) -> (r: Result<
    JsonObject,
    ProviderOperationError,
>)
    ensures
        !valid_grant_id(request.grant_id@) ==> (r matches Err(e) && e is InvalidGrantId),
        valid_grant_id(request.grant_id@) && !valid_operation(request.operation@) ==> (r matches Err(
            e,
        ) && e is InvalidOperation),
        valid_grant_id(request.grant_id@) && valid_operation(request.operation@) ==> (r matches Ok(
            o,
        ) && o.map() == request_body(*request)),
{
    match validate_provider_grant_id(request.grant_id.as_str()) {
        Err(e) => {
            return Err(e);
        },
        Ok(()) => {},
    }
    match validate_provider_operation(request.operation.as_str()) {
        Err(e) => {
            return Err(e);
        },
        Ok(()) => {},
    }
    let mut body = JsonObject::new();
    body.insert("grant_id".to_owned(), JsonValue::String(request.grant_id.clone()));
    body.insert("operation".to_owned(), JsonValue::String(request.operation.clone()));
    body.insert("target".to_owned(), JsonValue::String(request.target.clone()));
    body.insert("input".to_owned(), JsonValue::Object(request.input.clone()));
    match request.expected_access {
        Some(access) => {
            body.insert("access".to_owned(), JsonValue::String(access.as_str().to_owned()));
        },
        None => {},
    }
    assert(body.map() =~= request_body(*request));
    Ok(body)
}

// ---------------------------------------------------------------------------
// Grants
// ---------------------------------------------------------------------------
/// A grant as plain values: id, provider, scopes, status.
pub open spec fn grant_view(g: HostedProviderGrant) -> (Seq<char>, Seq<char>, Seq<Seq<char>>, Seq<char>) {
    (g.grant_id@, g.provider@, g.scopes@.map_values(|s: String| s@), g.status@)
}

/// Why a listed grant was rejected.
pub enum GrantFailure {
    Response(Seq<char>),
    GrantId,
}

pub open spec fn grant_error(e: ProviderOperationError, f: GrantFailure) -> bool {
    match f {
        GrantFailure::Response(m) => invalid_response(e, m),
        GrantFailure::GrantId => e is InvalidGrantId,
    }
}

/// Every scope is a non-blank string.
pub open spec fn scopes_valid(items: Seq<JsonModel>) -> bool {
    forall|i: int|
        0 <= i < items.len() ==> #[trigger] items[i] is Str && trim_spec(items[i]->Str_0).len() > 0
}

pub open spec fn trimmed_scopes(items: Seq<JsonModel>) -> Seq<Seq<char>> {
    Seq::new(items.len(), |i: int| trim_spec(items[i]->Str_0))
}

/// A listed grant: an object with a valid grant id, a provider, a status
/// and an array of non-blank scopes; strings are trimmed.
pub open spec fn parse_grant_spec(v: JsonModel) -> Result<
    (Seq<char>, Seq<char>, Seq<Seq<char>>, Seq<char>),
    GrantFailure,
> {
    match v {
        JsonModel::Object(e) => if required_string(e, "grant_id"@) is None {
            Err(GrantFailure::Response(required_message("grant_id"@)))
        } else if !valid_grant_id(required_string(e, "grant_id"@)->0) {
            Err(GrantFailure::GrantId)
        } else if required_string(e, "provider"@) is None {
            Err(GrantFailure::Response(required_message("provider"@)))
        } else if required_string(e, "status"@) is None {
            Err(GrantFailure::Response(required_message("status"@)))
        } else {
            match lookup(e, "scopes"@) {
                Some(JsonModel::Array(items)) => if scopes_valid(items) {
                    Ok(
                        (
                            required_string(e, "grant_id"@)->0,
                            required_string(e, "provider"@)->0,
                            trimmed_scopes(items),
                            required_string(e, "status"@)->0,
                        ),
                    )
                } else {
                    Err(GrantFailure::Response("provider grant scopes must be non-empty strings"@))
                },
                _ => Err(GrantFailure::Response("provider grant scopes must be an array"@)),
            }
        },
        _ => Err(GrantFailure::Response("provider grant must be an object"@)),
    }
}

fn parse_scopes(items: &Vec<JsonValue>) -> (r: Option<Vec<String>>)
    ensures
        match r {
            Some(v) => scopes_valid(items@.map_values(|x: JsonValue| x@)) && v@.map_values(
                |s: String| s@,
            ) == trimmed_scopes(items@.map_values(|x: JsonValue| x@)),
            None => !scopes_valid(items@.map_values(|x: JsonValue| x@)),
        },
{
    let ghost m = items@.map_values(|x: JsonValue| x@);
    let mut out: Vec<String> = Vec::new();
    let mut i: usize = 0;
    while i < items.len()
        invariant
            i <= items@.len(),
            m == items@.map_values(|x: JsonValue| x@),
            out@.len() == i,
            forall|j: int|
                0 <= j < i ==> #[trigger] m[j] is Str && trim_spec(m[j]->Str_0).len() > 0
                    && out@[j]@ == trim_spec(m[j]->Str_0),
        decreases items.len() - i,
    {
        match &items[i] {
            JsonValue::String(scope) => {
                let t = trim(scope.as_str());
                if t.as_str().unicode_len() == 0 {
                    assert(!(m[i as int] is Str && trim_spec(m[i as int]->Str_0).len() > 0));
                    return None;
                }
                out.push(t);
            },
            _ => {
                assert(!(m[i as int] is Str));
                return None;
            },
        }
        i = i + 1;
    }
    assert(out@.map_values(|s: String| s@) =~= trimmed_scopes(m));
    Some(out)
}

/// Reads one listed grant.
pub fn parse_provider_grant(value: &JsonValue) -> (r: Result<
    HostedProviderGrant,
    ProviderOperationError,
>)
    ensures
        match parse_grant_spec(value@) {
            Ok(g) => r matches Ok(x) && grant_view(x) == g,
            Err(f) => r matches Err(e) && grant_error(e, f),
        },
{
    let grant = match value.as_object() {
        Some(o) => o,
        None => {
            return Err(
                ProviderOperationError::InvalidResponse("provider grant must be an object".to_owned()),
            );
        },
    };
    let grant_id = match required_response_string(grant, "grant_id") {
        Err(e) => {
            return Err(e);
        },
        Ok(s) => s,
    };
    match validate_provider_grant_id(grant_id.as_str()) {
        Err(e) => {
            return Err(e);
        },
        Ok(()) => {},
    }
    let provider = match required_response_string(grant, "provider") {
        Err(e) => {
            return Err(e);
        },
        Ok(s) => s,
    };
    let status = match required_response_string(grant, "status") {
        Err(e) => {
            return Err(e);
        },
        Ok(s) => s,
    };
    let items = match grant.get("scopes") {
        Some(JsonValue::Array(items)) => items,
        _ => {
            return Err(
                ProviderOperationError::InvalidResponse(
                    "provider grant scopes must be an array".to_owned(),
                ),
            );
        },
    };
    proof {
        lemma_array_model(*items);
        assert(JsonValue::Array(*items)@->Array_0 =~= items@.map_values(|x: JsonValue| x@));
    }
    let scopes = match parse_scopes(items) {
        Some(s) => s,
        None => {
            return Err(
                ProviderOperationError::InvalidResponse(
                    "provider grant scopes must be non-empty strings".to_owned(),
                ),
            );
        },
    };
    Ok(HostedProviderGrant { grant_id, provider, scopes, status })
}

/// The grants of a listing, first failure in order.
pub open spec fn grant_list(items: Seq<JsonModel>) -> Result<
    Seq<(Seq<char>, Seq<char>, Seq<Seq<char>>, Seq<char>)>,
    GrantFailure,
>
    decreases items.len(),
{
    if items.len() == 0 {
        Ok(Seq::empty())
    } else {
        match grant_list(items.drop_last()) {
            Err(f) => Err(f),
            Ok(prior) => match parse_grant_spec(items.last()) {
                Err(f) => Err(f),
                Ok(g) => Ok(prior.push(g)),
            },
        }
    }
}

/// A grant listing: an object with success status and an array of grants.
pub open spec fn grants_spec(v: JsonModel) -> Result<
    Seq<(Seq<char>, Seq<char>, Seq<Seq<char>>, Seq<char>)>,
    GrantFailure,
> {
    match v {
        JsonModel::Object(e) => if string_field(e, "status"@) != Some("success"@) {
            Err(GrantFailure::Response("grant response status is not success"@))
        } else {
            match lookup(e, "grants"@) {
                Some(JsonModel::Array(items)) => grant_list(items),
                _ => Err(GrantFailure::Response("grant response grants must be an array"@)),
            }
        },
        _ => Err(GrantFailure::Response("grant response must be an object"@)),
    }
}

proof fn lemma_grant_list_err(items: Seq<JsonModel>, i: int)
    requires
        0 <= i < items.len(),
        grant_list(items.subrange(0, i + 1)) is Err,
    ensures
        grant_list(items) == grant_list(items.subrange(0, i + 1)),
    decreases items.len() - i,
{
    if i + 1 < items.len() {
        assert(items.subrange(0, i + 2).drop_last() =~= items.subrange(0, i + 1));
        lemma_grant_list_err(items, i + 1);
    } else {
        assert(items.subrange(0, i + 1) =~= items);
    }
}

proof fn lemma_grant_list_items(items: Seq<JsonModel>)
    ensures
        grant_list(items) matches Ok(gs) ==> gs.len() == items.len() && forall|k: int|
            0 <= k < items.len() ==> parse_grant_spec(#[trigger] items[k]) == Ok::<
                (Seq<char>, Seq<char>, Seq<Seq<char>>, Seq<char>),
                GrantFailure,
            >(gs[k]),
        (exists|k: int| 0 <= k < items.len() && #[trigger] parse_grant_spec(items[k]) is Err) ==> grant_list(
            items,
        ) is Err,
    decreases items.len(),
{
    if items.len() > 0 {
        let d = items.drop_last();
        let n = items.len() - 1;
        lemma_grant_list_items(d);
        assert(items[n] == items.last());
        assert forall|k: int| 0 <= k < n implies #[trigger] items[k] == d[k] by {}
        if exists|k: int| 0 <= k < items.len() && #[trigger] parse_grant_spec(items[k]) is Err {
            let k = choose|k: int| 0 <= k < items.len() && #[trigger] parse_grant_spec(items[k]) is Err;
            if k < n {
                assert(parse_grant_spec(d[k]) is Err);
            }
        }
    }
}

/// The items of a grant listing: the `grants` array of an object.
pub open spec fn listed_items(v: JsonModel) -> Option<Seq<JsonModel>> {
    match v {
        JsonModel::Object(e) => match lookup(e, "grants"@) {
            Some(JsonModel::Array(items)) => Some(items),
            _ => None,
        },
        _ => None,
    }
}

/// A grant listing reports success.
pub open spec fn listing_succeeded(v: JsonModel) -> bool {
    v is Object && string_field(v->Object_0, "status"@) == Some("success"@)
}

/// A grant listing is read whole or refused: a successful read holds one
/// grant per listed item, in order, each as that item reads alone (so with
/// a valid grant id and non-blank scopes), and the listing is refused if
/// any item is refused or its status is not `success`.
pub proof fn lemma_grant_listing_law(v: JsonModel)
    ensures
        grants_spec(v) is Ok ==> listing_succeeded(v) && listed_items(v) is Some,
        grants_spec(v) is Ok ==> grants_spec(v)->Ok_0.len() == listed_items(v)->0.len(),
        grants_spec(v) is Ok ==> forall|k: int|
            0 <= k < listed_items(v)->0.len() ==> parse_grant_spec(#[trigger] listed_items(v)->0[k])
                == Ok::<(Seq<char>, Seq<char>, Seq<Seq<char>>, Seq<char>), GrantFailure>(
                grants_spec(v)->Ok_0[k],
            ),
        grants_spec(v) is Ok ==> forall|k: int|
            0 <= k < grants_spec(v)->Ok_0.len() ==> valid_grant_id(#[trigger] grants_spec(v)->Ok_0[k].0)
                && forall|m: int|
                0 <= m < grants_spec(v)->Ok_0[k].2.len() ==> grants_spec(v)->Ok_0[k].2[m].len() > 0,
        !listing_succeeded(v) ==> grants_spec(v) is Err,
        listed_items(v) is Some && (exists|k: int|
            0 <= k < listed_items(v)->0.len() && #[trigger] parse_grant_spec(listed_items(v)->0[k]) is Err)
            ==> grants_spec(v) is Err,
{
    if let JsonModel::Object(e) = v {
        if let Some(JsonModel::Array(items)) = lookup(e, "grants"@) {
            lemma_grant_list_items(items);
            if let Ok(gs) = grants_spec(v) {
                assert forall|k: int| 0 <= k < gs.len() implies valid_grant_id(#[trigger] gs[k].0)
                    && forall|m: int| 0 <= m < gs[k].2.len() ==> gs[k].2[m].len() > 0 by {
                    assert(parse_grant_spec(items[k]) is Ok);
                    if let JsonModel::Object(g) = items[k] {
                        if let Some(JsonModel::Array(sc)) = lookup(g, "scopes"@) {
                            assert(gs[k].2 == trimmed_scopes(sc));
                            assert forall|m: int| 0 <= m < gs[k].2.len() implies gs[k].2[m].len()
                                > 0 by {
                                assert(sc[m] is Str && trim_spec(sc[m]->Str_0).len() > 0);
                            }
                        }
                    }
                }
            }
        }
    }
}

/// The grants a listing response holds.
pub fn grants_from_response(response: &JsonValue) -> (r: Result<
    Vec<HostedProviderGrant>,
    ProviderOperationError,
>)
    ensures
        match grants_spec(response@) {
            Ok(gs) => r matches Ok(v) && v@.map_values(|g: HostedProviderGrant| grant_view(g))
                == gs,
            Err(f) => r matches Err(e) && grant_error(e, f),
        },
{
    let object = match response.as_object() {
        Some(o) => o,
        None => {
            return Err(
                ProviderOperationError::InvalidResponse("grant response must be an object".to_owned()),
            );
        },
    };
    let success = match string_field_of(object, "status") {
        Some(s) => str_eq(s.as_str(), "success"),
        None => false,
    };
    if !success {
        return Err(
            ProviderOperationError::InvalidResponse("grant response status is not success".to_owned()),
        );
    }
    let items = match object.get("grants") {
        Some(JsonValue::Array(items)) => items,
        _ => {
            return Err(
                ProviderOperationError::InvalidResponse(
                    "grant response grants must be an array".to_owned(),
                ),
            );
        },
    };
    let ghost m = items@.map_values(|x: JsonValue| x@);
    proof {
        lemma_array_model(*items);
        assert(JsonValue::Array(*items)@->Array_0 =~= m);
        assert(lookup(object@, "grants"@) == Some(JsonModel::Array(m)));
    }
    let mut out: Vec<HostedProviderGrant> = Vec::new();
    let mut i: usize = 0;
    assert(m.subrange(0, 0) =~= Seq::<JsonModel>::empty());
    assert(out@.map_values(|g: HostedProviderGrant| grant_view(g)) =~= Seq::<
        (Seq<char>, Seq<char>, Seq<Seq<char>>, Seq<char>),
    >::empty());
    while i < items.len()
        invariant
            i <= items@.len(),
            m == items@.map_values(|x: JsonValue| x@),
            grants_spec(response@) == grant_list(m),
            grant_list(m.subrange(0, i as int)) == Ok::<
                Seq<(Seq<char>, Seq<char>, Seq<Seq<char>>, Seq<char>)>,
                GrantFailure,
            >(out@.map_values(|g: HostedProviderGrant| grant_view(g))),
        decreases items.len() - i,
    {
        assert(m.subrange(0, i + 1).drop_last() =~= m.subrange(0, i as int));
        match parse_provider_grant(&items[i]) {
            Err(e) => {
                proof {
                    lemma_grant_list_err(m, i as int);
                }
                return Err(e);
            },
            Ok(g) => {
                let ghost before = out@;
                out.push(g);
                assert(out@.map_values(|g: HostedProviderGrant| grant_view(g)) =~= before.map_values(
                    |g: HostedProviderGrant| grant_view(g),
                ).push(grant_view(g)));
            },
        }
        i = i + 1;
    }
    assert(m.subrange(0, items@.len() as int) =~= m);
    Ok(out)
}

} // verus!
