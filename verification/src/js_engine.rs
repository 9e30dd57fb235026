//! The checks the deterministic JavaScript worker makes before and around an
//! evaluation: module paths and export names, the bounded job queue, and
//! error messages cut to a fixed number of bytes.
use vstd::prelude::*;

use vstd::utf8::{encode_scalar, encode_utf8, has_width_1_encoding, has_width_2_encoding, has_width_3_encoding};

use crate::text::{
    concat, contains_char, debug_quoted, debug_str, decimal, decimal_digits, ends_with, ends_with_spec,
    is_ascii_alnum, is_ascii_alpha, split_on, split_spec, starts_with, starts_with_spec, string_views,
};

verus! {

broadcast use vstd::utf8::char_is_scalar;

/// The most bytes an error message keeps.
pub const ERROR_MESSAGE_BYTES: usize = 4096;

/// Why an evaluation failed.
#[derive(Clone, Copy, Debug, PartialEq, Eq)]
pub enum WorkerFailureCode {
    InvalidProtocol,
    InvalidRequest,
    ModuleRejected,
    ResourceLimit,
    ExecutionFailed,
}

/// A failed evaluation: its code and a bounded message.
#[derive(Debug, PartialEq, Eq)]
pub struct EngineError {
    pub code: WorkerFailureCode,
    pub message: String,
}

/// The number of bytes of `s` in UTF-8.
pub open spec fn utf8_len(s: Seq<char>) -> nat {
    encode_utf8(s).len()
}

/// The UTF-8 width of one character.
pub open spec fn char_width(c: char) -> nat {
    encode_scalar(c as u32).len()
}

pub(crate) proof fn lemma_utf8_push(s: Seq<char>, c: char)
    ensures
        utf8_len(s.push(c)) == utf8_len(s) + char_width(c),
    decreases s.len(),
{
    let p = s.push(c);
    if s.len() == 0 {
        assert(p.drop_first() =~= Seq::<char>::empty());
        assert(encode_utf8(p.drop_first()).len() == 0);
        assert(p[0] == c);
        assert(encode_utf8(p) == encode_scalar(c as u32) + encode_utf8(p.drop_first()));
    } else {
        assert(p.drop_first() =~= s.drop_first().push(c));
        lemma_utf8_push(s.drop_first(), c);
        assert(p[0] == s[0]);
        assert(encode_utf8(p) == encode_scalar(s[0] as u32) + encode_utf8(p.drop_first()));
        assert(encode_utf8(s) == encode_scalar(s[0] as u32) + encode_utf8(s.drop_first()));
    }
}

proof fn lemma_utf8_prefix_monotone(s: Seq<char>, j: int, k: int)
    requires
        0 <= j <= k <= s.len(),
    ensures
        utf8_len(s.take(j)) <= utf8_len(s.take(k)),
    decreases k - j,
{
    if j < k {
        lemma_utf8_prefix_monotone(s, j, k - 1);
        assert(s.take(k) =~= s.take(k - 1).push(s[k - 1]));
        lemma_utf8_push(s.take(k - 1), s[k - 1]);
    }
}

pub(crate) proof fn lemma_char_width_positive(c: char)
    ensures
        char_width(c) >= 1,
{
}

pub(crate) fn width_of(c: char) -> (r: usize)
    ensures
        r == char_width(c),
        1 <= r <= 4,
{
    let v = c as u32;
    if v <= 0x7F {
        assert(has_width_1_encoding(v));
        1
    } else if v <= 0x7FF {
        assert(has_width_2_encoding(v));
        2
    } else if v <= 0xFFFF {
        assert(has_width_3_encoding(v));
        3
    } else {
        4
    }
}

/// A message cut to its longest prefix of whole characters that fits in
/// `ERROR_MESSAGE_BYTES` bytes, with `…` appended when it was cut.
pub open spec fn bounded_message_spec(m: Seq<char>, r: Seq<char>) -> bool {
    if utf8_len(m) <= ERROR_MESSAGE_BYTES {
        r == m
    } else {
        exists|k: int|
            0 <= k < m.len() && utf8_len(m.take(k)) <= ERROR_MESSAGE_BYTES < utf8_len(#[trigger] m.take(k + 1))
                && r == m.take(k).push('…')
    }
}

/// Keeps a message within `ERROR_MESSAGE_BYTES` bytes.
pub fn bounded_message(message: String) -> (r: String)
    ensures
        bounded_message_spec(message@, r@),
{
    let chars = crate::text::chars_of(message.as_str());
    let mut out = String::new();
    let mut used: usize = 0;
    let mut k: usize = 0;
    while k < chars.len()
        invariant
            k <= chars@.len(),
            chars@ == message@,
            out@ == message@.take(k as int),
            used == utf8_len(message@.take(k as int)),
            used <= ERROR_MESSAGE_BYTES,
        decreases chars.len() - k,
    {
        let w = width_of(chars[k]);
        proof {
            assert(message@.take(k + 1) =~= message@.take(k as int).push(chars@[k as int]));
            lemma_utf8_push(message@.take(k as int), chars@[k as int]);
        }
        if used + w > ERROR_MESSAGE_BYTES {
            proof {
                assert(utf8_len(message@) > ERROR_MESSAGE_BYTES) by {
                    lemma_utf8_prefix_monotone(message@, k + 1, message@.len() as int);
                    assert(message@.take(message@.len() as int) =~= message@);
                }
            }
            crate::text::push_char(&mut out, '…');
            return out;
        }
        crate::text::push_char(&mut out, chars[k]);
        used = used + w;
        k = k + 1;
    }
    assert(message@.take(message@.len() as int) =~= message@);
    out
}

impl EngineError {
    /// An error whose message is kept within its byte bound.
    pub fn new(code: WorkerFailureCode, message: String) -> (r: Self)
        ensures
            r.code == code,
            bounded_message_spec(message@, r.message@),
    {
        EngineError { code, message: bounded_message(message) }
    }
}

/// An execution failure in a given step of the evaluation.
pub fn engine_failure(context: &str, error: &str) -> (r: EngineError)
    ensures
        r.code == WorkerFailureCode::ExecutionFailed,
        bounded_message_spec(context@ + ": "@ + error@, r.message@),
{
    let head = concat(context, ": ");
    EngineError::new(WorkerFailureCode::ExecutionFailed, concat(head.as_str(), error))
}

/// A normalized relative module path: `.js` or `.mjs`, not absolute, no
/// backslash, and no empty, `.` or `..` segment.
pub open spec fn valid_module_path(p: Seq<char>) -> bool {
    &&& (ends_with_spec(p, ".js"@) || ends_with_spec(p, ".mjs"@))
    &&& p.len() > 0
    &&& !starts_with_spec(p, "/"@)
    &&& !p.contains('\\')
    &&& forall|i: int|
        0 <= i < split_spec(p, '/').len() ==> {
            let s = #[trigger] split_spec(p, '/')[i];
            s.len() > 0 && s != "."@ && s != ".."@
        }
}

fn normal_segments(path: &str) -> (r: bool)
    ensures
        r == forall|i: int|
            0 <= i < split_spec(path@, '/').len() ==> {
                let s = #[trigger] split_spec(path@, '/')[i];
                s.len() > 0 && s != "."@ && s != ".."@
            },
{
    let segments = split_on(path, '/');
    let mut i: usize = 0;
    while i < segments.len()
        invariant
            i <= segments@.len(),
            string_views(segments@) == split_spec(path@, '/'),
            forall|j: int|
                0 <= j < i ==> {
                    let s = #[trigger] split_spec(path@, '/')[j];
                    s.len() > 0 && s != "."@ && s != ".."@
                },
        decreases segments.len() - i,
    {
        let s = segments[i].as_str();
        assert(s@ == split_spec(path@, '/')[i as int]);
        if s.unicode_len() == 0 || crate::text::str_eq(s, ".") || crate::text::str_eq(s, "..") {
            return false;
        }
        i = i + 1;
    }
    true
}

/// Accepts a module path of the bundle.
pub fn validate_module_path(path: &str) -> (r: Result<(), EngineError>)
    ensures
        r is Ok <==> valid_module_path(path@),
        r matches Err(e) ==> e.code == WorkerFailureCode::ModuleRejected && bounded_message_spec(
            "JavaScript module path "@ + debug_quoted(path@)
                + " is not a normalized relative .js/.mjs path"@,
            e.message@,
        ),
{
    let extension = ends_with(path, ".js") || ends_with(path, ".mjs");
    let valid = extension && path.unicode_len() > 0 && !starts_with(path, "/") && !contains_char(path, '\\')
        && normal_segments(path);
    if valid {
        return Ok(());
    }
    let head = concat("JavaScript module path ", debug_str(path).as_str());
    Err(
        EngineError::new(
            WorkerFailureCode::ModuleRejected,
            concat(head.as_str(), " is not a normalized relative .js/.mjs path"),
        ),
    )
}

pub open spec fn export_start(c: char) -> bool {
    is_ascii_alpha(c) || c == '_' || c == '$'
}

pub open spec fn export_continue(c: char) -> bool {
    is_ascii_alnum(c) || c == '_' || c == '$'
}

/// An export name: an ASCII identifier that may use `_` and `$`.
pub open spec fn valid_export_name(n: Seq<char>) -> bool {
    n.len() > 0 && export_start(n[0]) && forall|i: int| 1 <= i < n.len() ==> export_continue(#[trigger] n[i])
}

fn export_name_ok(name: &str) -> (r: bool)
    ensures
        r == valid_export_name(name@),
{
    let chars = crate::text::chars_of(name);
    if chars.len() == 0 {
        return false;
    }
    let c = chars[0];
    if !((c >= 'a' && c <= 'z') || (c >= 'A' && c <= 'Z') || c == '_' || c == '$') {
        return false;
    }
    let mut i: usize = 1;
    while i < chars.len()
        invariant
            1 <= i <= chars@.len(),
            chars@ == name@,
            export_start(name@[0]),
            forall|j: int| 1 <= j < i ==> export_continue(#[trigger] chars@[j]),
        decreases chars.len() - i,
    {
        let c = chars[i];
        if !((c >= 'a' && c <= 'z') || (c >= 'A' && c <= 'Z') || (c >= '0' && c <= '9') || c == '_'
            || c == '$') {
            assert(!export_continue(chars@[i as int]));
            return false;
        }
        i = i + 1;
    }
    true
}

/// Accepts the name of the export to call.
pub fn validate_export_name(name: &str) -> (r: Result<(), EngineError>)
    ensures
        r is Ok <==> valid_export_name(name@),
        r matches Err(e) ==> e.code == WorkerFailureCode::InvalidRequest && bounded_message_spec(
            "JavaScript export name "@ + debug_quoted(name@) + " is not an identifier"@,
            e.message@,
        ),
{
    if export_name_ok(name) {
        return Ok(());
    }
    let head = concat("JavaScript export name ", debug_str(name).as_str());
    Err(EngineError::new(WorkerFailureCode::InvalidRequest, concat(head.as_str(), " is not an identifier")))
}

/// The job queue's admission count: how many jobs were offered, against the
/// maximum, and whether the maximum was ever passed.
#[derive(Debug)]
pub struct JobBudget {
    pub count: u32,
    pub maximum: u32,
    pub overflowed: bool,
}

impl JobBudget {
    /// A budget that has admitted nothing.
    pub fn new(maximum: u32) -> (r: Self)
        ensures
            r.count == 0,
            r.maximum == maximum,
            !r.overflowed,
    {
        JobBudget { count: 0, maximum, overflowed: false }
    }

    /// Counts one more job (saturating) and admits it while the count stays
    /// within the maximum; past it, the budget is overflowed for good.
    pub fn accept_job(&mut self) -> (admitted: bool)
        ensures
            final(self).count == (if old(self).count < u32::MAX {
                old(self).count + 1
            } else {
                old(self).count as int
            }),
            final(self).maximum == old(self).maximum,
            admitted == (final(self).count <= old(self).maximum),
            final(self).overflowed == (old(self).overflowed || !admitted),
    {
        let next = if self.count < u32::MAX {
            self.count + 1
        } else {
            self.count
        };
        self.count = next;
        if next > self.maximum {
            self.overflowed = true;
            return false;
        }
        true
    }

    /// Fails once the budget has overflowed.
    pub fn check(&self) -> (r: Result<(), EngineError>)
        ensures
            r is Ok <==> !self.overflowed,
            r matches Err(e) ==> e.code == WorkerFailureCode::ResourceLimit && bounded_message_spec(
                "JavaScript queued more than "@ + decimal_digits(self.maximum as nat) + " jobs"@,
                e.message@,
            ),
    {
        if self.overflowed {
            let head = concat("JavaScript queued more than ", decimal(self.maximum as usize).as_str());
            return Err(EngineError::new(WorkerFailureCode::ResourceLimit, concat(head.as_str(), " jobs")));
        }
        Ok(())
    }
}

/// Once a job is refused, every later job is refused too and the budget
/// stays overflowed.
pub proof fn lemma_job_budget_overflow_is_final(count: u32, maximum: u32)
    requires
        count > maximum,
    ensures
        (if count < u32::MAX {
            count + 1
        } else {
            count as int
        }) > maximum,
{
}

} // verus!
