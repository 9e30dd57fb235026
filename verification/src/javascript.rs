//! Static import scanning for JavaScript modules shipped in skill packages.
//!
//! A lightweight lexer splits the source bytes into identifiers, string
//! literals and punctuation, skipping whitespace, comments, regular
//! expression literals and template literals. The import scanner then reads
//! module specifiers from `import`/`export ... from` forms and, for
//! process-backed tools, from static `require("...")` calls.
use vstd::prelude::*;

use vstd::string::StringSliceAdditionalSpecFns;

use crate::package::SkillPackageError;
use crate::text::{
    concat, decimal, decimal_digits, push_char, sort_dedup, str_eq, string_views, strictly_sorted,
};

verus! {

broadcast use vstd::string::group_string_axioms;

// ---------------------------------------------------------------------------
// Lexical model
// ---------------------------------------------------------------------------
/// A lexical token of the model.
pub enum SpecToken {
    Ident(Seq<char>),
    Str(Seq<char>, bool),
    Punct(u8),
}

/// A token: identifier, string literal (with whether it used an escape),
/// or one byte of punctuation.
#[derive(Debug)]
pub enum Token {
    Ident(String),
    Str { value: String, escaped: bool },
    Punct(u8),
}

impl View for Token {
    type V = SpecToken;

    open spec fn view(&self) -> SpecToken {
        match self {
            Token::Ident(s) => SpecToken::Ident(s@),
            Token::Str { value, escaped } => SpecToken::Str(value@, *escaped),
            Token::Punct(b) => SpecToken::Punct(*b),
        }
    }
}

pub open spec fn token_views(v: Seq<Token>) -> Seq<SpecToken> {
    v.map_values(|t: Token| t@)
}

/// Why lexing failed; the offsets are byte offsets of the opening delimiter.
pub enum LexError {
    BlockComment(nat),
    Regex(nat),
    Str(nat),
    Template(nat),
    Utf8,
}

pub open spec fn is_ident_start(b: u8) -> bool {
    (0x41 <= b <= 0x5a) || (0x61 <= b <= 0x7a) || b == 0x5f || b == 0x24
}

pub open spec fn is_ident_continue(b: u8) -> bool {
    is_ident_start(b) || (0x30 <= b <= 0x39)
}

pub open spec fn is_ascii_ws(b: u8) -> bool {
    b == 0x20 || b == 0x09 || b == 0x0a || b == 0x0c || b == 0x0d
}

/// First index at or after `i` that holds a newline, or the length.
pub open spec fn scan_newline(b: Seq<u8>, i: int) -> int
    decreases b.len() - i,
{
    if 0 <= i < b.len() && b[i] != 0x0a {
        scan_newline(b, i + 1)
    } else {
        i
    }
}

/// First index at or after `i` where `*/` starts, or where fewer than two
/// bytes remain.
pub open spec fn scan_block(b: Seq<u8>, i: int) -> int
    decreases b.len() - i,
{
    if 0 <= i && i + 1 < b.len() && !(b[i] == 0x2a && b[i + 1] == 0x2f) {
        scan_block(b, i + 1)
    } else {
        i
    }
}

/// First index at or after `i` that does not continue an identifier.
pub open spec fn scan_ident(b: Seq<u8>, i: int) -> int
    decreases b.len() - i,
{
    if 0 <= i < b.len() && is_ident_continue(b[i]) {
        scan_ident(b, i + 1)
    } else {
        i
    }
}

/// Scans the body of a regular-expression literal from `i`: the index just
/// past its flags, or `None` when a line break or the end comes first.
pub open spec fn scan_regex(b: Seq<u8>, i: int, in_class: bool) -> Option<int>
    decreases b.len() - i,
{
    if i < 0 || i >= b.len() {
        None
    } else if b[i] == 0x5c {
        if i + 2 < b.len() {
            scan_regex(b, i + 2, in_class)
        } else {
            None
        }
    } else if b[i] == 0x5b && !in_class {
        scan_regex(b, i + 1, true)
    } else if b[i] == 0x5d && in_class {
        scan_regex(b, i + 1, false)
    } else if b[i] == 0x2f && !in_class {
        Some(scan_ident(b, i + 1))
    } else if b[i] == 0x0a || b[i] == 0x0d {
        None
    } else {
        scan_regex(b, i + 1, in_class)
    }
}

/// Scans the body of a string literal from `i`: the index of the closing
/// quote and whether a backslash escape occurred, or `None` when a line
/// break or the end comes first.
pub open spec fn scan_string(b: Seq<u8>, i: int, quote: u8, escaped: bool) -> Option<(int, bool)>
    decreases b.len() - i,
{
    if i < 0 || i >= b.len() {
        None
    } else if b[i] == 0x5c {
        if i + 2 < b.len() {
            scan_string(b, i + 2, quote, true)
        } else {
            None
        }
    } else if b[i] == quote {
        Some((i, escaped))
    } else if b[i] == 0x0a || b[i] == 0x0d {
        None
    } else {
        scan_string(b, i + 1, quote, escaped)
    }
}

/// Scans the body of a template literal from `i`: the index just past the
/// closing backtick.
pub open spec fn scan_template(b: Seq<u8>, i: int) -> Option<int>
    decreases b.len() - i,
{
    if i < 0 || i >= b.len() {
        None
    } else if b[i] == 0x5c {
        if i + 2 < b.len() {
            scan_template(b, i + 2)
        } else {
            None
        }
    } else if b[i] == 0x60 {
        Some(i + 1)
    } else {
        scan_template(b, i + 1)
    }
}

pub open spec fn is_regex_prefix_punct(c: u8) -> bool {
    c == 0x28 || c == 0x5b || c == 0x7b || c == 0x2c || c == 0x3b || c == 0x3a || c == 0x3d || c
        == 0x21 || c == 0x3f || c == 0x26 || c == 0x7c || c == 0x2b || c == 0x2d || c == 0x2a || c
        == 0x25 || c == 0x5e || c == 0x7e || c == 0x3c || c == 0x3e
}

pub open spec fn is_regex_prefix_keyword(k: Seq<char>) -> bool {
    k == "await"@ || k == "case"@ || k == "delete"@ || k == "do"@ || k == "else"@ || k == "in"@
        || k == "instanceof"@ || k == "new"@ || k == "of"@ || k == "return"@ || k == "throw"@ || k
        == "typeof"@ || k == "void"@ || k == "yield"@
}

/// Whether a `/` after the given token starts a regular-expression literal.
pub open spec fn regex_can_start(prev: Option<SpecToken>) -> bool {
    match prev {
        None => true,
        Some(SpecToken::Punct(c)) => is_regex_prefix_punct(c),
        Some(SpecToken::Ident(k)) => is_regex_prefix_keyword(k),
        Some(SpecToken::Str(_, _)) => false,
    }
}

pub open spec fn last_token(t: Seq<SpecToken>) -> Option<SpecToken> {
    if t.len() == 0 {
        None
    } else {
        Some(t.last())
    }
}

/// The characters of an ASCII byte range.
pub open spec fn ascii_chars(b: Seq<u8>) -> Seq<char> {
    b.map_values(|x: u8| x as char)
}

/// One lexer step at `i < b.len()`: the next index and the token list.
pub open spec fn lex_step(b: Seq<u8>, i: int, t: Seq<SpecToken>) -> Result<
    (int, Seq<SpecToken>),
    LexError,
> {
    let c = b[i];
    if c == 0x23 && i == 0 && 1 < b.len() && b[1] == 0x21 {
        Ok((scan_newline(b, 2), t))
    } else if is_ascii_ws(c) {
        Ok((i + 1, t))
    } else if c == 0x2f && i + 1 < b.len() && b[i + 1] == 0x2f {
        Ok((scan_newline(b, i + 2), t))
    } else if c == 0x2f && i + 1 < b.len() && b[i + 1] == 0x2a {
        let j = scan_block(b, i + 2);
        if j + 1 >= b.len() {
            Err(LexError::BlockComment(i as nat))
        } else {
            Ok((j + 2, t))
        }
    } else if c == 0x2f && regex_can_start(last_token(t)) {
        match scan_regex(b, i + 1, false) {
            None => Err(LexError::Regex(i as nat)),
            Some(j) => Ok((j, t)),
        }
    } else if c == 0x27 || c == 0x22 {
        match scan_string(b, i + 1, c, false) {
            None => Err(LexError::Str(i as nat)),
            Some((j, escaped)) => {
                let raw = b.subrange(i + 1, j);
                if vstd::utf8::valid_utf8(raw) {
                    Ok((j + 1, t.push(SpecToken::Str(vstd::utf8::decode_utf8(raw), escaped))))
                } else {
                    Err(LexError::Utf8)
                }
            },
        }
    } else if c == 0x60 {
        match scan_template(b, i + 1) {
            None => Err(LexError::Template(i as nat)),
            Some(j) => Ok((j, t)),
        }
    } else if is_ident_start(c) {
        let j = scan_ident(b, i + 1);
        Ok((j, t.push(SpecToken::Ident(ascii_chars(b.subrange(i, j))))))
    } else {
        Ok((i + 1, t.push(SpecToken::Punct(c))))
    }
}

/// A line comment ends at or after where it starts, within the source.
pub proof fn lemma_scan_newline(b: Seq<u8>, i: int)
    requires
        0 <= i,
    ensures
        i <= scan_newline(b, i),
        scan_newline(b, i) <= b.len() || scan_newline(b, i) == i,
    decreases b.len() - i,
{
    if 0 <= i < b.len() && b[i] != 0x0a {
        lemma_scan_newline(b, i + 1);
    }
}

/// A block comment ends at or after where it starts.
pub proof fn lemma_scan_block(b: Seq<u8>, i: int)
    requires
        0 <= i,
    ensures
        i <= scan_block(b, i),
    decreases b.len() - i,
{
    if 0 <= i && i + 1 < b.len() && !(b[i] == 0x2a && b[i + 1] == 0x2f) {
        lemma_scan_block(b, i + 1);
    }
}

/// An identifier ends within the source, and every byte it covers may
/// continue an identifier.
pub proof fn lemma_scan_ident(b: Seq<u8>, i: int)
    requires
        0 <= i,
    ensures
        i <= scan_ident(b, i),
        i <= b.len() ==> scan_ident(b, i) <= b.len(),
        forall|k: int| i <= k < scan_ident(b, i) ==> is_ident_continue(b[k]),
    decreases b.len() - i,
{
    if 0 <= i < b.len() && is_ident_continue(b[i]) {
        lemma_scan_ident(b, i + 1);
    }
}

/// A regular expression literal that closes ends past its start, within
/// the source.
pub proof fn lemma_scan_regex(b: Seq<u8>, i: int, in_class: bool)
    requires
        0 <= i,
    ensures
        scan_regex(b, i, in_class) matches Some(j) ==> i < j <= b.len(),
    decreases b.len() - i,
{
    if 0 <= i < b.len() {
        if b[i] == 0x5c {
            if i + 2 < b.len() {
                lemma_scan_regex(b, i + 2, in_class);
            }
        } else if b[i] == 0x5b && !in_class {
            lemma_scan_regex(b, i + 1, true);
        } else if b[i] == 0x5d && in_class {
            lemma_scan_regex(b, i + 1, false);
        } else if b[i] == 0x2f && !in_class {
            lemma_scan_ident(b, i + 1);
        } else if b[i] == 0x0a || b[i] == 0x0d {
        } else {
            lemma_scan_regex(b, i + 1, in_class);
        }
    }
}

/// A string literal that closes does so at a byte of the source at or
/// after its start.
pub proof fn lemma_scan_string(b: Seq<u8>, i: int, quote: u8, escaped: bool)
    requires
        0 <= i,
    ensures
        scan_string(b, i, quote, escaped) matches Some((j, e)) ==> i <= j < b.len(),
    decreases b.len() - i,
{
    if 0 <= i < b.len() {
        if b[i] == 0x5c {
            if i + 2 < b.len() {
                lemma_scan_string(b, i + 2, quote, true);
            }
        } else if b[i] == quote {
        } else if b[i] == 0x0a || b[i] == 0x0d {
        } else {
            lemma_scan_string(b, i + 1, quote, escaped);
        }
    }
}

/// A template literal that closes ends past its start, within the source.
pub proof fn lemma_scan_template(b: Seq<u8>, i: int)
    requires
        0 <= i,
    ensures
        scan_template(b, i) matches Some(j) ==> i < j <= b.len(),
    decreases b.len() - i,
{
    if 0 <= i < b.len() {
        if b[i] == 0x5c {
            if i + 2 < b.len() {
                lemma_scan_template(b, i + 2);
            }
        } else if b[i] != 0x60 {
            lemma_scan_template(b, i + 1);
        }
    }
}

/// Every lexer step moves forward, and never past the end.
pub proof fn lemma_lex_step_progress(b: Seq<u8>, i: int, t: Seq<SpecToken>)
    requires
        0 <= i < b.len(),
    ensures
        lex_step(b, i, t) matches Ok((j, _)) ==> i < j <= b.len(),
{
    lemma_scan_newline(b, 2);
    lemma_scan_newline(b, i + 2);
    lemma_scan_block(b, i + 2);
    lemma_scan_regex(b, i + 1, false);
    lemma_scan_string(b, i + 1, b[i], false);
    lemma_scan_template(b, i + 1);
    lemma_scan_ident(b, i + 1);
}

/// Lexes `b` from index `i`, continuing the token list `t`.
pub open spec fn lex_from(b: Seq<u8>, i: int, t: Seq<SpecToken>) -> Result<
    Seq<SpecToken>,
    LexError,
>
    decreases b.len() - i,
{
    if i < 0 || i >= b.len() {
        Ok(t)
    } else {
        match lex_step(b, i, t) {
            Err(e) => Err(e),
            Ok((j, t2)) => {
                proof {
                    lemma_lex_step_progress(b, i, t);
                }
                lex_from(b, j, t2)
            },
        }
    }
}

/// The tokens of a source text, given by its UTF-8 bytes.
pub open spec fn lex(b: Seq<u8>) -> Result<Seq<SpecToken>, LexError> {
    lex_from(b, 0, Seq::empty())
}

// ---------------------------------------------------------------------------
// Import model
// ---------------------------------------------------------------------------
/// Why a module's imports were rejected.
pub enum ImportError {
    DynamicImport,
    SpecifierEscape,
    FromNotPlainString,
    RequireEscape,
    RequireNotStatic,
}

pub open spec fn is_punct(t: Seq<SpecToken>, i: int, c: u8) -> bool {
    0 <= i < t.len() && t[i] == SpecToken::Punct(c)
}

pub open spec fn is_ident(t: Seq<SpecToken>, i: int, k: Seq<char>) -> bool {
    0 <= i < t.len() && t[i] == SpecToken::Ident(k)
}

/// The specifiers of a `from` clause that starts at `start`, scanning from
/// `i`: the resume index and the specifiers found so far.
pub open spec fn from_clause(t: Seq<SpecToken>, start: int, i: int, acc: Seq<Seq<char>>) -> Result<
    (int, Seq<Seq<char>>),
    ImportError,
>
    decreases t.len() - i,
{
    let limit = if start + 64 < t.len() {
        start + 64
    } else {
        t.len() as int
    };
    if i < start || i >= limit {
        Ok((if i > start + 1 {
            i
        } else {
            start + 1
        }, acc))
    } else if is_punct(t, i, 0x3b) {
        Ok((i + 1, acc))
    } else if is_ident(t, i, "from"@) {
        if i + 1 < t.len() && t[i + 1] is Str {
            if t[i + 1]->Str_1 {
                Err(ImportError::SpecifierEscape)
            } else {
                Ok((i + 2, acc.push(t[i + 1]->Str_0)))
            }
        } else {
            Err(ImportError::FromNotPlainString)
        }
    } else if is_ident(t, i, "import"@) || is_ident(t, i, "export"@) {
        Ok((i, acc))
    } else {
        from_clause(t, start, i + 1, acc)
    }
}

/// After `import` at `i`.
pub open spec fn import_form(t: Seq<SpecToken>, i: int, acc: Seq<Seq<char>>) -> Result<
    (int, Seq<Seq<char>>),
    ImportError,
> {
    if is_punct(t, i + 1, 0x28) {
        Err(ImportError::DynamicImport)
    } else if i + 1 < t.len() && t[i + 1] is Str {
        if t[i + 1]->Str_1 {
            Err(ImportError::SpecifierEscape)
        } else {
            Ok((i + 2, acc.push(t[i + 1]->Str_0)))
        }
    } else {
        from_clause(t, i + 1, i + 1, acc)
    }
}

/// After `export` at `i`.
pub open spec fn export_form(t: Seq<SpecToken>, i: int, acc: Seq<Seq<char>>) -> Result<
    (int, Seq<Seq<char>>),
    ImportError,
> {
    if is_punct(t, i + 1, 0x7b) || is_punct(t, i + 1, 0x2a) {
        from_clause(t, i + 1, i + 1, acc)
    } else {
        Ok((i + 1, acc))
    }
}

/// Reading a `from` clause never moves backwards over the tokens.
pub proof fn lemma_from_clause_progress(
    t: Seq<SpecToken>,
    start: int,
    i: int,
    acc: Seq<Seq<char>>,
)
    requires
        0 <= start <= i <= t.len(),
    ensures
        from_clause(t, start, i, acc) matches Ok((j, _)) ==> j >= start && j >= i && j <= t.len()
            + 1,
    decreases t.len() - i,
{
    let limit = if start + 64 < t.len() {
        start + 64
    } else {
        t.len() as int
    };
    if i < start || i >= limit {
    } else if is_punct(t, i, 0x3b) {
    } else if is_ident(t, i, "from"@) {
    } else if is_ident(t, i, "import"@) || is_ident(t, i, "export"@) {
    } else {
        lemma_from_clause_progress(t, start, i + 1, acc);
    }
}

/// The specifiers named by the `import`/`export` forms at or after `i`.
pub open spec fn scan_imports(t: Seq<SpecToken>, i: int, acc: Seq<Seq<char>>) -> Result<
    Seq<Seq<char>>,
    ImportError,
>
    decreases t.len() + 1 - i,
{
    if i < 0 || i >= t.len() {
        Ok(acc)
    } else if is_ident(t, i, "import"@) {
        if is_punct(t, i - 1, 0x2e) {
            scan_imports(t, i + 1, acc)
        } else {
            match import_form(t, i, acc) {
                Err(e) => Err(e),
                Ok((j, acc2)) => {
                    proof {
                        lemma_from_clause_progress(t, i + 1, i + 1, acc);
                    }
                    scan_imports(t, j, acc2)
                },
            }
        }
    } else if is_ident(t, i, "export"@) {
        match export_form(t, i, acc) {
            Err(e) => Err(e),
            Ok((j, acc2)) => {
                proof {
                    lemma_from_clause_progress(t, i + 1, i + 1, acc);
                }
                scan_imports(t, j, acc2)
            },
        }
    } else {
        scan_imports(t, i + 1, acc)
    }
}

/// The first effectful boundary named at or after `i`, if any.
pub open spec fn first_effect(t: Seq<SpecToken>, i: int) -> Option<Seq<char>>
    decreases t.len() - i,
{
    if i < 0 || i >= t.len() {
        None
    } else if t[i] is Ident && (t[i]->Ident_0 == "fetch"@ || t[i]->Ident_0 == "require"@)
        && is_punct(t, i + 1, 0x28) {
        Some(t[i]->Ident_0)
    } else if t[i] is Ident && (t[i]->Ident_0 == "RUNX_INPUTS_JSON"@ || t[i]->Ident_0
        == "RUNX_INPUTS_PATH"@) {
        Some(t[i]->Ident_0)
    } else if is_ident(t, i, "process"@) && is_punct(t, i + 1, 0x2e) && (is_ident(t, i + 2, "env"@)
        || is_ident(t, i + 2, "stdout"@) || is_ident(t, i + 2, "stderr"@)) {
        Some("process runtime plumbing"@)
    } else {
        first_effect(t, i + 1)
    }
}

/// The static `require("...")` specifiers at or after `i`.
pub open spec fn scan_requires(t: Seq<SpecToken>, i: int, acc: Seq<Seq<char>>) -> Result<
    Seq<Seq<char>>,
    ImportError,
>
    decreases t.len() - i,
{
    if i < 0 || i >= t.len() {
        Ok(acc)
    } else if !is_ident(t, i, "require"@) || is_punct(t, i - 1, 0x2e) || !is_punct(
        t,
        i + 1,
        0x28,
    ) {
        scan_requires(t, i + 1, acc)
    } else if i + 2 < t.len() && t[i + 2] is Str && !t[i + 2]->Str_1 && is_punct(t, i + 3, 0x29) {
        scan_requires(t, i + 1, acc.push(t[i + 2]->Str_0))
    } else if i + 2 < t.len() && t[i + 2] is Str && t[i + 2]->Str_1 {
        Err(ImportError::RequireEscape)
    } else {
        Err(ImportError::RequireNotStatic)
    }
}

/// Token `k` is a specifier by its place: an unescaped string right after
/// an `import` that is not a member access, right after `from`, or the sole
/// argument of a `require( )` call that is not a member access.
pub open spec fn specifier_position(t: Seq<SpecToken>, k: int) -> bool {
    &&& 0 <= k < t.len()
    &&& t[k] is Str
    &&& !t[k]->Str_1
    &&& {
        ||| is_ident(t, k - 1, "import"@) && !is_punct(t, k - 2, 0x2e)
        ||| is_ident(t, k - 1, "from"@)
        ||| is_ident(t, k - 2, "require"@) && !is_punct(t, k - 3, 0x2e) && is_punct(t, k - 1, 0x28)
            && is_punct(t, k + 1, 0x29)
    }
}

/// `name` is the value of a token at a specifier position.
pub open spec fn named_at_specifier(t: Seq<SpecToken>, name: Seq<char>) -> bool {
    exists|k: int| #[trigger] specifier_position(t, k) && t[k]->Str_0 == name
}

/// Every name in `names` is the value of a token at a specifier position.
pub open spec fn named_by_specifiers(t: Seq<SpecToken>, names: Seq<Seq<char>>) -> bool {
    forall|j: int| 0 <= j < names.len() ==> named_at_specifier(t, #[trigger] names[j])
}

proof fn lemma_named_push(t: Seq<SpecToken>, names: Seq<Seq<char>>, k: int)
    requires
        named_by_specifiers(t, names),
        specifier_position(t, k),
    ensures
        named_by_specifiers(t, names.push(t[k]->Str_0)),
{
    let n = names.push(t[k]->Str_0);
    assert forall|j: int| 0 <= j < n.len() implies named_at_specifier(t, #[trigger] n[j]) by {
        if j < names.len() {
            assert(n[j] == names[j]);
        } else {
            assert(specifier_position(t, k) && t[k]->Str_0 == n[j]);
        }
    }
}

proof fn lemma_from_clause_named(t: Seq<SpecToken>, start: int, i: int, acc: Seq<Seq<char>>)
    requires
        named_by_specifiers(t, acc),
    ensures
        from_clause(t, start, i, acc) matches Ok((_, a)) ==> named_by_specifiers(t, a),
    decreases t.len() - i,
{
    let limit = if start + 64 < t.len() {
        start + 64
    } else {
        t.len() as int
    };
    if i < start || i >= limit {
    } else if is_punct(t, i, 0x3b) {
    } else if is_ident(t, i, "from"@) {
        if i + 1 < t.len() && t[i + 1] is Str && !t[i + 1]->Str_1 {
            lemma_named_push(t, acc, i + 1);
        }
    } else if is_ident(t, i, "import"@) || is_ident(t, i, "export"@) {
    } else {
        lemma_from_clause_named(t, start, i + 1, acc);
    }
}

proof fn lemma_scan_imports_named(t: Seq<SpecToken>, i: int, acc: Seq<Seq<char>>)
    requires
        named_by_specifiers(t, acc),
    ensures
        scan_imports(t, i, acc) matches Ok(a) ==> named_by_specifiers(t, a),
    decreases t.len() + 1 - i,
{
    if i < 0 || i >= t.len() {
    } else if is_ident(t, i, "import"@) {
        if is_punct(t, i - 1, 0x2e) {
            lemma_scan_imports_named(t, i + 1, acc);
        } else {
            lemma_from_clause_progress(t, i + 1, i + 1, acc);
            if is_punct(t, i + 1, 0x28) {
            } else if i + 1 < t.len() && t[i + 1] is Str {
                if !t[i + 1]->Str_1 {
                    lemma_named_push(t, acc, i + 1);
                    lemma_scan_imports_named(t, i + 2, acc.push(t[i + 1]->Str_0));
                }
            } else {
                lemma_from_clause_named(t, i + 1, i + 1, acc);
                if let Ok((j, a)) = from_clause(t, i + 1, i + 1, acc) {
                    lemma_scan_imports_named(t, j, a);
                }
            }
        }
    } else if is_ident(t, i, "export"@) {
        lemma_from_clause_progress(t, i + 1, i + 1, acc);
        if is_punct(t, i + 1, 0x7b) || is_punct(t, i + 1, 0x2a) {
            lemma_from_clause_named(t, i + 1, i + 1, acc);
            if let Ok((j, a)) = from_clause(t, i + 1, i + 1, acc) {
                lemma_scan_imports_named(t, j, a);
            }
        } else {
            lemma_scan_imports_named(t, i + 1, acc);
        }
    } else {
        lemma_scan_imports_named(t, i + 1, acc);
    }
}

proof fn lemma_scan_requires_named(t: Seq<SpecToken>, i: int, acc: Seq<Seq<char>>)
    requires
        named_by_specifiers(t, acc),
    ensures
        scan_requires(t, i, acc) matches Ok(a) ==> named_by_specifiers(t, a),
    decreases t.len() - i,
{
    if i < 0 || i >= t.len() {
    } else if !is_ident(t, i, "require"@) || is_punct(t, i - 1, 0x2e) || !is_punct(t, i + 1, 0x28) {
        lemma_scan_requires_named(t, i + 1, acc);
    } else if i + 2 < t.len() && t[i + 2] is Str && !t[i + 2]->Str_1 && is_punct(t, i + 3, 0x29) {
        lemma_named_push(t, acc, i + 2);
        lemma_scan_requires_named(t, i + 1, acc.push(t[i + 2]->Str_0));
    }
}

/// Every module a process-backed JavaScript tool is found to depend on is
/// the value of an unescaped string literal of its source at a specifier
/// position: right after an `import` keyword, right after `from`, or the
/// sole argument of a static `require( )` call; never text inside a
/// comment, a string, a template or a regular expression, which the lexer
/// consumes whole.
pub proof fn lemma_process_imports_are_specifiers(b: Seq<u8>)
    ensures
        process_import_list(b) matches Ok(s) ==> named_by_specifiers(lex(b)->Ok_0, s),
{
    if let Ok(t) = lex(b) {
        lemma_scan_imports_named(t, 0, Seq::empty());
        lemma_scan_requires_named(t, 0, Seq::empty());
        if let Ok(s) = scan_imports(t, 0, Seq::empty()) {
            if let Ok(r) = scan_requires(t, 0, Seq::empty()) {
                let c = s + r;
                assert forall|j: int| 0 <= j < c.len() implies named_at_specifier(t, #[trigger] c[j]) by {
                    if j < s.len() {
                        assert(c[j] == s[j]);
                    } else {
                        assert(c[j] == r[j - s.len()]);
                    }
                }
            }
        }
    }
}

/// What `process_module_imports` gives back, in one statement: on success
/// the dependencies are strictly increasing (sorted, no repeats), and each
/// is the value of an unescaped string literal of the source at a
/// specifier position (right after a non-member `import`, right after
/// `from`, or the sole argument of a static `require( )`); text inside
/// comments, strings, templates and regular expressions is never one, as
/// the lexer consumes it whole.
pub proof fn lemma_process_module_imports_law(
    path: Seq<char>,
    source: Seq<u8>,
    r: Result<Vec<String>, SkillPackageError>,
)
    requires
        scan_outcome(path, r, process_import_list(source)),
    ensures
        r matches Ok(v) ==> strictly_sorted(string_views(v@)) && forall|i: int|
            0 <= i < v@.len() ==> named_at_specifier(lex(source)->Ok_0, #[trigger] v@[i]@),
{
    lemma_process_imports_are_specifiers(source);
    if let Ok(v) = r {
        if let Ok(s) = process_import_list(source) {
            assert forall|i: int| 0 <= i < v@.len() implies named_at_specifier(
                lex(source)->Ok_0,
                #[trigger] v@[i]@,
            ) by {
                let x = v@[i]@;
                assert(string_views(v@)[i] == x);
                assert(string_views(v@).to_set().contains(x));
                assert(s.to_set().contains(x));
                let j = choose|j: int| 0 <= j < s.len() && s[j] == x;
                assert(named_at_specifier(lex(source)->Ok_0, s[j]));
            }
        }
    }
}

/// Token `k` is an escaped string right after a non-member `import`.
pub open spec fn escaped_import_specifier(t: Seq<SpecToken>, k: int) -> bool {
    &&& 1 <= k < t.len()
    &&& t[k] is Str
    &&& t[k]->Str_1
    &&& is_ident(t, k - 1, "import"@)
    &&& !is_punct(t, k - 2, 0x2e)
}

/// Token `k` is an escaped string as the sole argument of a non-member
/// `require( )`.
pub open spec fn escaped_require_specifier(t: Seq<SpecToken>, k: int) -> bool {
    &&& 2 <= k < t.len()
    &&& t[k] is Str
    &&& t[k]->Str_1
    &&& is_ident(t, k - 2, "require"@)
    &&& !is_punct(t, k - 3, 0x2e)
    &&& is_punct(t, k - 1, 0x28)
}

/// Reading a `from` clause never passes an `import` keyword.
proof fn lemma_from_clause_stops_at_import(t: Seq<SpecToken>, start: int, i: int, acc: Seq<Seq<char>>, target: int)
    requires
        0 <= start <= i <= target < t.len(),
        is_ident(t, target, "import"@),
    ensures
        from_clause(t, start, i, acc) matches Ok((j, _)) ==> j <= target,
    decreases t.len() - i,
{
    reveal_strlit("from");
    reveal_strlit("import");
    assert("from"@ != "import"@) by {
        assert("from"@[0] != "import"@[0]);
    }
    let limit = if start + 64 < t.len() {
        start + 64
    } else {
        t.len() as int
    };
    assert(t[target] == SpecToken::Ident("import"@));
    if i < start || i >= limit {
    } else if is_punct(t, i, 0x3b) {
        assert(i != target);
    } else if is_ident(t, i, "from"@) {
        assert(i != target);
        if i + 1 < t.len() && t[i + 1] is Str {
            assert(i + 1 != target);
        }
    } else if is_ident(t, i, "import"@) || is_ident(t, i, "export"@) {
    } else {
        assert(i != target);
        lemma_from_clause_stops_at_import(t, start, i + 1, acc, target);
    }
}

/// Token `k` is a non-member `import` that the scan refuses: a dynamic
/// `import(` or an escaped specifier string.
pub open spec fn refused_import(t: Seq<SpecToken>, k: int) -> bool {
    &&& 0 <= k
    &&& is_ident(t, k, "import"@)
    &&& !is_punct(t, k - 1, 0x2e)
    &&& (is_punct(t, k + 1, 0x28) || (k + 1 < t.len() && t[k + 1] is Str && t[k + 1]->Str_1))
}

proof fn lemma_scan_imports_meets_refused_import(t: Seq<SpecToken>, i: int, acc: Seq<Seq<char>>, imp: int)
    requires
        0 <= i <= imp,
        refused_import(t, imp),
    ensures
        scan_imports(t, i, acc) is Err,
    decreases imp - i,
{
    if i == imp {
    } else if is_ident(t, i, "import"@) {
        if is_punct(t, i - 1, 0x2e) {
            lemma_scan_imports_meets_refused_import(t, i + 1, acc, imp);
        } else {
            lemma_from_clause_progress(t, i + 1, i + 1, acc);
            if is_punct(t, i + 1, 0x28) {
            } else if i + 1 < t.len() && t[i + 1] is Str {
                if !t[i + 1]->Str_1 {
                    assert(i + 1 != imp);
                    lemma_scan_imports_meets_refused_import(t, i + 2, acc.push(t[i + 1]->Str_0), imp);
                }
            } else {
                lemma_from_clause_stops_at_import(t, i + 1, i + 1, acc, imp);
                if let Ok((j, a)) = from_clause(t, i + 1, i + 1, acc) {
                    lemma_scan_imports_meets_refused_import(t, j, a, imp);
                }
            }
        }
    } else if is_ident(t, i, "export"@) {
        lemma_from_clause_progress(t, i + 1, i + 1, acc);
        if is_punct(t, i + 1, 0x7b) || is_punct(t, i + 1, 0x2a) {
            lemma_from_clause_stops_at_import(t, i + 1, i + 1, acc, imp);
            if let Ok((j, a)) = from_clause(t, i + 1, i + 1, acc) {
                lemma_scan_imports_meets_refused_import(t, j, a, imp);
            }
        } else {
            lemma_scan_imports_meets_refused_import(t, i + 1, acc, imp);
        }
    } else {
        lemma_scan_imports_meets_refused_import(t, i + 1, acc, imp);
    }
}

proof fn lemma_scan_requires_meets_escape(t: Seq<SpecToken>, i: int, acc: Seq<Seq<char>>, target: int)
    requires
        0 <= i <= target - 2,
        escaped_require_specifier(t, target),
    ensures
        scan_requires(t, i, acc) is Err,
    decreases target - i,
{
    if i < target - 2 {
        if !is_ident(t, i, "require"@) || is_punct(t, i - 1, 0x2e) || !is_punct(t, i + 1, 0x28) {
            lemma_scan_requires_meets_escape(t, i + 1, acc, target);
        } else if i + 2 < t.len() && t[i + 2] is Str && !t[i + 2]->Str_1 && is_punct(t, i + 3, 0x29) {
            lemma_scan_requires_meets_escape(t, i + 1, acc.push(t[i + 2]->Str_0), target);
        }
    }
}

/// An escaped string where a process module names a dependency (right
/// after a non-member `import`, or as the sole argument of a non-member
/// `require( )`) makes the scan fail: a dependency is never read from a
/// string whose text differs from its source.
pub proof fn lemma_escaped_specifier_fails(b: Seq<u8>, k: int)
    requires
        lex(b) is Ok,
        escaped_import_specifier(lex(b)->Ok_0, k) || escaped_require_specifier(lex(b)->Ok_0, k),
    ensures
        process_import_list(b) is Err,
{
    let t = lex(b)->Ok_0;
    if escaped_import_specifier(t, k) {
        lemma_scan_imports_meets_refused_import(t, 0, Seq::empty(), k - 1);
    } else {
        lemma_scan_requires_meets_escape(t, 0, Seq::empty(), k);
    }
}

/// A dynamic `import(` (not a member access) is refused wherever it stands:
/// no module holding one scans successfully, deterministic or
/// process-backed.
pub proof fn lemma_dynamic_import_fails(b: Seq<u8>, k: int)
    requires
        lex(b) is Ok,
        k >= 0,
        is_ident(lex(b)->Ok_0, k, "import"@),
        !is_punct(lex(b)->Ok_0, k - 1, 0x2e),
        is_punct(lex(b)->Ok_0, k + 1, 0x28),
    ensures
        module_import_list(b) is Err,
        process_import_list(b) is Err,
{
    lemma_scan_imports_meets_refused_import(lex(b)->Ok_0, 0, Seq::empty(), k);
}

/// Tokens `start..f` hold no `;`, `from`, `import` or `export`, token `f`
/// is `from` within the clause's reach, and an unescaped string follows.
pub open spec fn clause_from(t: Seq<SpecToken>, start: int, f: int) -> bool {
    &&& 0 <= start < f < start + 64
    &&& f + 1 < t.len()
    &&& is_ident(t, f, "from"@)
    &&& t[f + 1] is Str
    &&& !t[f + 1]->Str_1
    &&& forall|i: int|
        start <= i < f ==> !is_punct(t, i, 0x3b) && !is_ident(t, i, "from"@) && !is_ident(t, i, "import"@)
            && !is_ident(t, i, "export"@)
}

/// The module statement whose keyword is token `k` names the dependency
/// `s`: `import "s"`, `import .. from "s"` (the clause's `from` at `f`), or
/// `export {..} from "s"` / `export * from "s"` (likewise), with `import`
/// not a member access.
pub open spec fn names_dependency(t: Seq<SpecToken>, k: int, f: int, s: Seq<char>) -> bool {
    ||| is_ident(t, k, "import"@) && !is_punct(t, k - 1, 0x2e) && k + 1 < t.len() && t[k + 1] == SpecToken::Str(
        s,
        false,
    )
    ||| is_ident(t, k, "import"@) && !is_punct(t, k - 1, 0x2e) && !is_punct(t, k + 1, 0x28) && !(k + 1
        < t.len() && t[k + 1] is Str) && clause_from(t, k + 1, f) && t[f + 1]->Str_0 == s
    ||| is_ident(t, k, "export"@) && (is_punct(t, k + 1, 0x7b) || is_punct(t, k + 1, 0x2a)) && clause_from(
        t,
        k + 1,
        f,
    ) && t[f + 1]->Str_0 == s
}

proof fn lemma_keyword_literals()
    ensures
        "from"@ != "import"@,
        "from"@ != "export"@,
        "import"@ != "export"@,
{
    reveal_strlit("from");
    reveal_strlit("import");
    reveal_strlit("export");
    assert("from"@[0] != "import"@[0]);
    assert("from"@[0] != "export"@[0]);
    assert("import"@[0] != "export"@[0]);
}

proof fn lemma_from_clause_finds(t: Seq<SpecToken>, start: int, i: int, acc: Seq<Seq<char>>, f: int)
    requires
        start <= i <= f,
        clause_from(t, start, f),
    ensures
        from_clause(t, start, i, acc) == Ok::<(int, Seq<Seq<char>>), ImportError>(
            (f + 2, acc.push(t[f + 1]->Str_0)),
        ),
    decreases f - i,
{
    lemma_keyword_literals();
    if i < f {
        assert(!is_punct(t, i, 0x3b) && !is_ident(t, i, "from"@) && !is_ident(t, i, "import"@) && !is_ident(
            t,
            i,
            "export"@,
        ));
        lemma_from_clause_finds(t, start, i + 1, acc, f);
    } else {
        assert(!is_punct(t, i, 0x3b));
    }
}

proof fn lemma_prefix_push(acc: Seq<Seq<char>>, x: Seq<char>)
    ensures
        acc.push(x).len() >= acc.len(),
        acc.push(x).subrange(0, acc.len() as int) == acc,
{
    assert(acc.push(x).subrange(0, acc.len() as int) =~= acc);
}

proof fn lemma_from_clause_keeps(t: Seq<SpecToken>, start: int, i: int, acc: Seq<Seq<char>>)
    ensures
        from_clause(t, start, i, acc) matches Ok((_, a)) ==> a.len() >= acc.len() && a.subrange(
            0,
            acc.len() as int,
        ) == acc,
    decreases t.len() - i,
{
    assert(acc.subrange(0, acc.len() as int) =~= acc);
    let limit = if start + 64 < t.len() {
        start + 64
    } else {
        t.len() as int
    };
    if i < start || i >= limit {
    } else if is_punct(t, i, 0x3b) {
    } else if is_ident(t, i, "from"@) {
        if i + 1 < t.len() && t[i + 1] is Str && !t[i + 1]->Str_1 {
            lemma_prefix_push(acc, t[i + 1]->Str_0);
        }
    } else if is_ident(t, i, "import"@) || is_ident(t, i, "export"@) {
    } else {
        lemma_from_clause_keeps(t, start, i + 1, acc);
    }
}

proof fn lemma_prefix_trans(a: Seq<Seq<char>>, b: Seq<Seq<char>>, c: Seq<Seq<char>>)
    requires
        b.len() >= a.len(),
        b.subrange(0, a.len() as int) == a,
        c.len() >= b.len(),
        c.subrange(0, b.len() as int) == b,
    ensures
        c.len() >= a.len(),
        c.subrange(0, a.len() as int) == a,
{
    assert(c.subrange(0, a.len() as int) =~= b.subrange(0, a.len() as int));
}

proof fn lemma_scan_imports_keeps(t: Seq<SpecToken>, i: int, acc: Seq<Seq<char>>)
    ensures
        scan_imports(t, i, acc) matches Ok(r) ==> r.len() >= acc.len() && r.subrange(0, acc.len() as int) == acc,
    decreases t.len() + 1 - i,
{
    assert(acc.subrange(0, acc.len() as int) =~= acc);
    if i < 0 || i >= t.len() {
    } else if is_ident(t, i, "import"@) {
        if is_punct(t, i - 1, 0x2e) {
            lemma_scan_imports_keeps(t, i + 1, acc);
        } else {
            lemma_from_clause_progress(t, i + 1, i + 1, acc);
            if is_punct(t, i + 1, 0x28) {
            } else if i + 1 < t.len() && t[i + 1] is Str {
                if !t[i + 1]->Str_1 {
                    let a = acc.push(t[i + 1]->Str_0);
                    lemma_prefix_push(acc, t[i + 1]->Str_0);
                    lemma_scan_imports_keeps(t, i + 2, a);
                    if let Ok(r) = scan_imports(t, i + 2, a) {
                        lemma_prefix_trans(acc, a, r);
                    }
                }
            } else {
                lemma_from_clause_keeps(t, i + 1, i + 1, acc);
                if let Ok((j, a)) = from_clause(t, i + 1, i + 1, acc) {
                    lemma_scan_imports_keeps(t, j, a);
                    if let Ok(r) = scan_imports(t, j, a) {
                        lemma_prefix_trans(acc, a, r);
                    }
                }
            }
        }
    } else if is_ident(t, i, "export"@) {
        lemma_from_clause_progress(t, i + 1, i + 1, acc);
        if is_punct(t, i + 1, 0x7b) || is_punct(t, i + 1, 0x2a) {
            lemma_from_clause_keeps(t, i + 1, i + 1, acc);
            if let Ok((j, a)) = from_clause(t, i + 1, i + 1, acc) {
                lemma_scan_imports_keeps(t, j, a);
                if let Ok(r) = scan_imports(t, j, a) {
                    lemma_prefix_trans(acc, a, r);
                }
            }
        } else {
            lemma_scan_imports_keeps(t, i + 1, acc);
        }
    } else {
        lemma_scan_imports_keeps(t, i + 1, acc);
    }
}

/// Reading a `from` clause never passes an `import` or `export` keyword.
proof fn lemma_from_clause_stops_at_keyword(t: Seq<SpecToken>, start: int, i: int, acc: Seq<Seq<char>>, target: int)
    requires
        0 <= start <= i <= target < t.len(),
        is_ident(t, target, "import"@) || is_ident(t, target, "export"@),
    ensures
        from_clause(t, start, i, acc) matches Ok((j, _)) ==> j <= target,
    decreases t.len() - i,
{
    lemma_keyword_literals();
    let limit = if start + 64 < t.len() {
        start + 64
    } else {
        t.len() as int
    };
    assert(t[target] is Ident);
    if i < start || i >= limit {
    } else if is_punct(t, i, 0x3b) {
        assert(i != target);
    } else if is_ident(t, i, "from"@) {
        assert(i != target);
        if i + 1 < t.len() && t[i + 1] is Str {
            assert(i + 1 != target);
        }
    } else if is_ident(t, i, "import"@) || is_ident(t, i, "export"@) {
    } else {
        assert(i != target);
        lemma_from_clause_stops_at_keyword(t, start, i + 1, acc, target);
    }
}

proof fn lemma_scan_contains_after(t: Seq<SpecToken>, j: int, a: Seq<Seq<char>>, s: Seq<char>)
    requires
        a.contains(s),
    ensures
        scan_imports(t, j, a) matches Ok(r) ==> r.contains(s),
{
    lemma_scan_imports_keeps(t, j, a);
    if let Ok(r) = scan_imports(t, j, a) {
        let k = choose|k: int| 0 <= k < a.len() && a[k] == s;
        assert(r.subrange(0, a.len() as int)[k] == r[k]);
        assert(r[k] == s);
    }
}

proof fn lemma_scan_reaches_dependency(
    t: Seq<SpecToken>,
    i: int,
    acc: Seq<Seq<char>>,
    target: int,
    f: int,
    s: Seq<char>,
)
    requires
        0 <= i <= target,
        names_dependency(t, target, f, s),
    ensures
        scan_imports(t, i, acc) matches Ok(r) ==> r.contains(s),
    decreases target - i,
{
    lemma_keyword_literals();
    assert(0 <= target < t.len());
    if i == target {
        if is_ident(t, i, "import"@) {
            if i + 1 < t.len() && t[i + 1] is Str {
                assert(t[i + 1] == SpecToken::Str(s, false));
                let a = acc.push(s);
                assert(a[acc.len() as int] == s);
                lemma_scan_contains_after(t, i + 2, a, s);
            } else {
                lemma_from_clause_finds(t, i + 1, i + 1, acc, f);
                let a = acc.push(s);
                assert(a[acc.len() as int] == s);
                lemma_scan_contains_after(t, f + 2, a, s);
            }
        } else {
            lemma_from_clause_finds(t, i + 1, i + 1, acc, f);
            let a = acc.push(s);
            assert(a[acc.len() as int] == s);
            lemma_scan_contains_after(t, f + 2, a, s);
        }
    } else if is_ident(t, i, "import"@) {
        if is_punct(t, i - 1, 0x2e) {
            lemma_scan_reaches_dependency(t, i + 1, acc, target, f, s);
        } else {
            lemma_from_clause_progress(t, i + 1, i + 1, acc);
            if is_punct(t, i + 1, 0x28) {
            } else if i + 1 < t.len() && t[i + 1] is Str {
                if !t[i + 1]->Str_1 {
                    assert(i + 1 != target);
                    lemma_scan_reaches_dependency(t, i + 2, acc.push(t[i + 1]->Str_0), target, f, s);
                }
            } else {
                lemma_from_clause_stops_at_keyword(t, i + 1, i + 1, acc, target);
                if let Ok((j, a)) = from_clause(t, i + 1, i + 1, acc) {
                    lemma_scan_reaches_dependency(t, j, a, target, f, s);
                }
            }
        }
    } else if is_ident(t, i, "export"@) {
        lemma_from_clause_progress(t, i + 1, i + 1, acc);
        if is_punct(t, i + 1, 0x7b) || is_punct(t, i + 1, 0x2a) {
            lemma_from_clause_stops_at_keyword(t, i + 1, i + 1, acc, target);
            if let Ok((j, a)) = from_clause(t, i + 1, i + 1, acc) {
                lemma_scan_reaches_dependency(t, j, a, target, f, s);
            }
        } else {
            lemma_scan_reaches_dependency(t, i + 1, acc, target, f, s);
        }
    } else {
        lemma_scan_reaches_dependency(t, i + 1, acc, target, f, s);
    }
}

/// The scans are complete: a module statement that names a dependency by
/// an unescaped string (`import "s"`, `import .. from "s"`,
/// `export {..} from "s"`, `export * from "s"`) puts it in the import list
/// of every successful scan, of a deterministic module and of a
/// process-backed one alike.
pub proof fn lemma_imports_complete(b: Seq<u8>, k: int, f: int, s: Seq<char>)
    requires
        lex(b) is Ok,
        names_dependency(lex(b)->Ok_0, k, f, s),
    ensures
        module_import_list(b) matches Ok(l) ==> l.contains(s),
        process_import_list(b) matches Ok(l) ==> l.contains(s),
{
    let t = lex(b)->Ok_0;
    lemma_scan_reaches_dependency(t, 0, Seq::empty(), k, f, s);
    if let Ok(imports) = scan_imports(t, 0, Seq::empty()) {
        if let Ok(req) = scan_requires(t, 0, Seq::empty()) {
            let c = imports + req;
            let m = choose|m: int| 0 <= m < imports.len() && imports[m] == s;
            assert(c[m] == s);
        }
    }
}

/// Token `k` is a static `require("s")` call that is not a member access.
pub open spec fn static_require(t: Seq<SpecToken>, k: int, s: Seq<char>) -> bool {
    &&& is_ident(t, k, "require"@)
    &&& !is_punct(t, k - 1, 0x2e)
    &&& is_punct(t, k + 1, 0x28)
    &&& k + 2 < t.len()
    &&& t[k + 2] == SpecToken::Str(s, false)
    &&& is_punct(t, k + 3, 0x29)
}

proof fn lemma_requires_keep(t: Seq<SpecToken>, i: int, acc: Seq<Seq<char>>, s: Seq<char>)
    requires
        acc.contains(s),
    ensures
        scan_requires(t, i, acc) matches Ok(r) ==> r.contains(s),
    decreases t.len() - i,
{
    if 0 <= i < t.len() {
        if !is_ident(t, i, "require"@) || is_punct(t, i - 1, 0x2e) || !is_punct(t, i + 1, 0x28) {
            lemma_requires_keep(t, i + 1, acc, s);
        } else if i + 2 < t.len() && t[i + 2] is Str && !t[i + 2]->Str_1 && is_punct(t, i + 3, 0x29) {
            let a = acc.push(t[i + 2]->Str_0);
            let m = choose|m: int| 0 <= m < acc.len() && acc[m] == s;
            assert(a[m] == s);
            lemma_requires_keep(t, i + 1, a, s);
        }
    }
}

proof fn lemma_requires_reach(t: Seq<SpecToken>, i: int, acc: Seq<Seq<char>>, k: int, s: Seq<char>)
    requires
        0 <= i <= k,
        static_require(t, k, s),
    ensures
        scan_requires(t, i, acc) matches Ok(r) ==> r.contains(s),
    decreases k - i,
{
    if i == k {
        let a = acc.push(s);
        assert(a[acc.len() as int] == s);
        lemma_requires_keep(t, i + 1, a, s);
    } else if !is_ident(t, i, "require"@) || is_punct(t, i - 1, 0x2e) || !is_punct(t, i + 1, 0x28) {
        lemma_requires_reach(t, i + 1, acc, k, s);
    } else if i + 2 < t.len() && t[i + 2] is Str && !t[i + 2]->Str_1 && is_punct(t, i + 3, 0x29) {
        lemma_requires_reach(t, i + 1, acc.push(t[i + 2]->Str_0), k, s);
    }
}

/// A process-backed module's scan is complete for CommonJS too: every
/// static `require("s")` that is not a member access puts `s` in the list
/// of a successful scan.
pub proof fn lemma_requires_complete(b: Seq<u8>, k: int, s: Seq<char>)
    requires
        lex(b) is Ok,
        k >= 0,
        static_require(lex(b)->Ok_0, k, s),
    ensures
        process_import_list(b) matches Ok(l) ==> l.contains(s),
{
    let t = lex(b)->Ok_0;
    lemma_requires_reach(t, 0, Seq::empty(), k, s);
    if let Ok(imports) = scan_imports(t, 0, Seq::empty()) {
        if let Ok(req) = scan_requires(t, 0, Seq::empty()) {
            let c = imports + req;
            let m = choose|m: int| 0 <= m < req.len() && req[m] == s;
            assert(c[imports.len() + m] == s);
        }
    }
}

/// Token `k` names an effectful boundary: a `fetch(` or `require(` call,
/// `RUNX_INPUTS_JSON` / `RUNX_INPUTS_PATH`, or `process.env`,
/// `process.stdout`, `process.stderr`.
pub open spec fn effect_at(t: Seq<SpecToken>, k: int) -> bool {
    &&& 0 <= k < t.len()
    &&& t[k] is Ident
    &&& {
        ||| (t[k]->Ident_0 == "fetch"@ || t[k]->Ident_0 == "require"@) && is_punct(t, k + 1, 0x28)
        ||| t[k]->Ident_0 == "RUNX_INPUTS_JSON"@ || t[k]->Ident_0 == "RUNX_INPUTS_PATH"@
        ||| is_ident(t, k, "process"@) && is_punct(t, k + 1, 0x2e) && (is_ident(t, k + 2, "env"@)
            || is_ident(t, k + 2, "stdout"@) || is_ident(t, k + 2, "stderr"@))
    }
}

proof fn lemma_effect_found(t: Seq<SpecToken>, i: int, k: int)
    requires
        0 <= i <= k,
        effect_at(t, k),
    ensures
        first_effect(t, i) is Some,
    decreases k - i,
{
    if i < k {
        if first_effect(t, i) is None {
            lemma_effect_found(t, i + 1, k);
        }
    }
}

/// A deterministic module that names an effectful boundary anywhere in its
/// code is refused for it: no such module scans successfully.
pub proof fn lemma_effects_refused(b: Seq<u8>, k: int)
    requires
        lex(b) is Ok,
        effect_at(lex(b)->Ok_0, k),
    ensures
        module_import_list(b) matches Err(f) && f is Effect,
{
    lemma_effect_found(lex(b)->Ok_0, 0, k);
}

/// Why a module scan failed.
pub enum ScanFailure {
    Lex(LexError),
    Effect(Seq<char>),
    Import(ImportError),
}

/// The specifiers a deterministic module imports, before ordering.
pub open spec fn module_import_list(b: Seq<u8>) -> Result<Seq<Seq<char>>, ScanFailure> {
    match lex(b) {
        Err(e) => Err(ScanFailure::Lex(e)),
        Ok(t) => match first_effect(t, 0) {
            Some(boundary) => Err(ScanFailure::Effect(boundary)),
            None => match scan_imports(t, 0, Seq::empty()) {
                Err(e) => Err(ScanFailure::Import(e)),
                Ok(s) => Ok(s),
            },
        },
    }
}

/// The specifiers a process-backed module depends on, before ordering.
pub open spec fn process_import_list(b: Seq<u8>) -> Result<Seq<Seq<char>>, ScanFailure> {
    match lex(b) {
        Err(e) => Err(ScanFailure::Lex(e)),
        Ok(t) => match scan_imports(t, 0, Seq::empty()) {
            Err(e) => Err(ScanFailure::Import(e)),
            Ok(s) => match scan_requires(t, 0, Seq::empty()) {
                Err(e) => Err(ScanFailure::Import(e)),
                Ok(r) => Ok(s + r),
            },
        },
    }
}

/// The message a scan failure is reported with (a UTF-8 failure also
/// carries the decoder's explanation after this prefix).
pub open spec fn failure_message(f: ScanFailure) -> Seq<char> {
    match f {
        ScanFailure::Lex(LexError::BlockComment(s)) => "unterminated JavaScript block comment at byte "@
            + decimal_digits(s),
        ScanFailure::Lex(LexError::Regex(s)) => "unterminated JavaScript regular expression at byte "@
            + decimal_digits(s),
        ScanFailure::Lex(LexError::Str(s)) => "unterminated JavaScript string at byte "@
            + decimal_digits(s),
        ScanFailure::Lex(LexError::Template(s)) => "unterminated JavaScript template literal at byte "@
            + decimal_digits(s),
        ScanFailure::Lex(LexError::Utf8) => "invalid UTF-8 string: "@,
        ScanFailure::Effect(boundary) => "deterministic JavaScript modules cannot own "@ + boundary
            + "; compose a native tool or declare a cli-tool boundary"@,
        ScanFailure::Import(ImportError::DynamicImport) =>
            "dynamic import() is not available in deterministic JavaScript modules"@,
        ScanFailure::Import(ImportError::SpecifierEscape) =>
            "JavaScript module specifiers must not use string escapes"@,
        ScanFailure::Import(ImportError::FromNotPlainString) =>
            "JavaScript import/export from must be followed by a plain string literal"@,
        ScanFailure::Import(ImportError::RequireEscape) =>
            "CommonJS require specifiers must not use string escapes"@,
        ScanFailure::Import(ImportError::RequireNotStatic) =>
            "process-backed JavaScript may use only static require(\"specifier\") dependencies"@,
    }
}

/// The outcome a scan promises for a spec-level result: the sorted,
/// duplicate-free specifiers, or an error about `path` with the failure's
/// message.
pub open spec fn scan_outcome(
    path: Seq<char>,
    r: Result<Vec<String>, SkillPackageError>,
    expected: Result<Seq<Seq<char>>, ScanFailure>,
) -> bool {
    match (r, expected) {
        (Ok(v), Ok(s)) => strictly_sorted(string_views(v@)) && string_views(v@).to_set()
            == s.to_set(),
        (Err(e), Err(f)) => e is Invalid && e.path_view() == path && (if f
            is Lex && f->Lex_0 is Utf8 {
            failure_message(f).is_prefix_of(e.message_view())
        } else {
            e.message_view() == failure_message(f)
        }),
        _ => false,
    }
}

// ---------------------------------------------------------------------------
// Lexer
// ---------------------------------------------------------------------------
/// What a lexing run promises: the model's tokens, or the model's error
/// about `path`.
pub open spec fn lex_outcome(
    path: Seq<char>,
    r: Result<Vec<Token>, SkillPackageError>,
    expected: Result<Seq<SpecToken>, LexError>,
) -> bool {
    match (r, expected) {
        (Ok(v), Ok(t)) => token_views(v@) == t,
        (Err(e), Err(f)) => e is Invalid && e.path_view() == path && (if f is Utf8 {
            failure_message(ScanFailure::Lex(f)).is_prefix_of(e.message_view())
        } else {
            e.message_view() == failure_message(ScanFailure::Lex(f))
        }),
        _ => false,
    }
}

fn skip_line(bytes: &[u8], start: usize) -> (r: usize)
    requires
        start <= bytes@.len(),
    ensures
        r == scan_newline(bytes@, start as int),
        r <= bytes@.len(),
{
    let mut index = start;
    while index < bytes.len() && bytes[index] != 0x0a
        invariant
            start <= index <= bytes@.len(),
            scan_newline(bytes@, start as int) == scan_newline(bytes@, index as int),
        decreases bytes.len() - index,
    {
        index = index + 1;
    }
    index
}

fn skip_ident(bytes: &[u8], start: usize) -> (r: usize)
    requires
        start <= bytes@.len(),
    ensures
        r == scan_ident(bytes@, start as int),
        start <= r <= bytes@.len(),
{
    let mut index = start;
    while index < bytes.len() && is_ident_continue_byte(bytes[index])
        invariant
            start <= index <= bytes@.len(),
            scan_ident(bytes@, start as int) == scan_ident(bytes@, index as int),
        decreases bytes.len() - index,
    {
        index = index + 1;
    }
    index
}

fn skip_block_body(bytes: &[u8], start: usize) -> (r: usize)
    requires
        start <= bytes@.len(),
    ensures
        r == scan_block(bytes@, start as int),
        r <= bytes@.len(),
{
    let mut index = start;
    while bytes.len() > 1 && index < bytes.len() - 1 && !(bytes[index] == 0x2a && bytes[index
        + 1] == 0x2f)
        invariant
            start <= index <= bytes@.len(),
            scan_block(bytes@, start as int) == scan_block(bytes@, index as int),
        decreases bytes.len() - index,
    {
        index = index + 1;
    }
    index
}

fn skip_regex_body(bytes: &[u8], start: usize) -> (r: Option<usize>)
    requires
        start <= bytes@.len(),
    ensures
        r matches Some(j) ==> scan_regex(bytes@, start as int, false) == Some(j as int),
        r is None ==> scan_regex(bytes@, start as int, false) is None,
{
    let mut index = start;
    let mut in_class = false;
    while index < bytes.len()
        invariant
            start <= index,
            scan_regex(bytes@, start as int, false) == scan_regex(bytes@, index as int, in_class),
        decreases bytes.len() - index,
    {
        let byte = bytes[index];
        if byte == 0x5c {
            let next = index.saturating_add(2);
            if next >= bytes.len() {
                return None;
            }
            index = next;
        } else if byte == 0x5b && !in_class {
            in_class = true;
            index = index + 1;
        } else if byte == 0x5d && in_class {
            in_class = false;
            index = index + 1;
        } else if byte == 0x2f && !in_class {
            return Some(skip_ident(bytes, index + 1));
        } else if byte == 0x0a || byte == 0x0d {
            return None;
        } else {
            index = index + 1;
        }
    }
    None
}

fn string_body_end(bytes: &[u8], start: usize, quote: u8) -> (r: Option<(usize, bool)>)
    requires
        start <= bytes@.len(),
    ensures
        r matches Some((j, e)) ==> scan_string(bytes@, start as int, quote, false) == Some(
            (j as int, e),
        ),
        r is None ==> scan_string(bytes@, start as int, quote, false) is None,
        r matches Some((j, e)) ==> start <= j < bytes@.len(),
{
    proof {
        lemma_scan_string(bytes@, start as int, quote, false);
    }
    let mut index = start;
    let mut escaped = false;
    while index < bytes.len()
        invariant
            start <= index,
            scan_string(bytes@, start as int, quote, false) == scan_string(
                bytes@,
                index as int,
                quote,
                escaped,
            ),
        decreases bytes.len() - index,
    {
        let byte = bytes[index];
        if byte == 0x5c {
            escaped = true;
            let next = index.saturating_add(2);
            if next >= bytes.len() {
                return None;
            }
            index = next;
        } else if byte == quote {
            return Some((index, escaped));
        } else if byte == 0x0a || byte == 0x0d {
            return None;
        } else {
            index = index + 1;
        }
    }
    None
}

fn skip_template_body(bytes: &[u8], start: usize) -> (r: Option<usize>)
    requires
        start <= bytes@.len(),
    ensures
        r matches Some(j) ==> scan_template(bytes@, start as int) == Some(j as int),
        r is None ==> scan_template(bytes@, start as int) is None,
{
    let mut index = start;
    while index < bytes.len()
        invariant
            start <= index,
            scan_template(bytes@, start as int) == scan_template(bytes@, index as int),
        decreases bytes.len() - index,
    {
        let byte = bytes[index];
        if byte == 0x5c {
            let next = index.saturating_add(2);
            if next >= bytes.len() {
                return None;
            }
            index = next;
        } else if byte == 0x60 {
            return Some(index + 1);
        } else {
            index = index + 1;
        }
    }
    None
}

pub fn is_ident_start_byte(byte: u8) -> (r: bool)
    ensures
        r == is_ident_start(byte),
{
    (0x41 <= byte && byte <= 0x5a) || (0x61 <= byte && byte <= 0x7a) || byte == 0x5f || byte
        == 0x24
}

pub fn is_ident_continue_byte(byte: u8) -> (r: bool)
    ensures
        r == is_ident_continue(byte),
{
    is_ident_start_byte(byte) || (0x30 <= byte && byte <= 0x39)
}

fn is_ascii_ws_byte(byte: u8) -> (r: bool)
    ensures
        r == is_ascii_ws(byte),
{
    byte == 0x20 || byte == 0x09 || byte == 0x0a || byte == 0x0c || byte == 0x0d
}

fn is_regex_prefix_punct_byte(c: u8) -> (r: bool)
    ensures
        r == is_regex_prefix_punct(c),
{
    c == 0x28 || c == 0x5b || c == 0x7b || c == 0x2c || c == 0x3b || c == 0x3a || c == 0x3d || c
        == 0x21 || c == 0x3f || c == 0x26 || c == 0x7c || c == 0x2b || c == 0x2d || c == 0x2a || c
        == 0x25 || c == 0x5e || c == 0x7e || c == 0x3c || c == 0x3e
}

fn is_regex_prefix_keyword_str(k: &str) -> (r: bool)
    ensures
        r == is_regex_prefix_keyword(k@),
{
    str_eq(k, "await") || str_eq(k, "case") || str_eq(k, "delete") || str_eq(k, "do") || str_eq(
        k,
        "else",
    ) || str_eq(k, "in") || str_eq(k, "instanceof") || str_eq(k, "new") || str_eq(k, "of")
        || str_eq(k, "return") || str_eq(k, "throw") || str_eq(k, "typeof") || str_eq(k, "void")
        || str_eq(k, "yield")
}

/// Whether a `/` after `previous` starts a regular-expression literal.
fn regex_can_start_after(previous: Option<&Token>) -> (r: bool)
    ensures
        r == regex_can_start(
            match previous {
                Some(t) => Some(t@),
                None => None,
            },
        ),
{
    match previous {
        None => true,
        Some(Token::Punct(c)) => is_regex_prefix_punct_byte(*c),
        Some(Token::Ident(k)) => is_regex_prefix_keyword_str(k.as_str()),
        Some(Token::Str { .. }) => false,
    }
}

/// How std describes invalid UTF-8: the text of the `Utf8Error` that
/// `std::str::from_utf8` returns for these bytes.
pub uninterp spec fn utf8_error_text(bytes: Seq<u8>) -> Seq<char>;

/// The text of a byte range that std decodes as UTF-8.
///
/// Trusted: calls `std::str::from_utf8`, which std documents as succeeding
/// exactly when the bytes are valid UTF-8 and then yielding the decoded
/// text; its error names where the bytes go wrong, which depends on the
/// bytes alone and is given a name here, not stated.
#[verifier::external_body]
pub(crate) fn utf8_text(bytes: &[u8], start: usize, end: usize) -> (r: Result<String, String>)
    requires
        start <= end <= bytes@.len(),
    ensures
        r is Ok <==> vstd::utf8::valid_utf8(bytes@.subrange(start as int, end as int)),
        r matches Ok(s) ==> s@ == vstd::utf8::decode_utf8(bytes@.subrange(start as int, end as int)),
        r matches Err(e) ==> e@ == utf8_error_text(bytes@.subrange(start as int, end as int)),
{
    std::str::from_utf8(&bytes[start..end]).map(|text| text.to_owned()).map_err(
        |error| error.to_string(),
    )
}

/// The identifier spelled by ASCII bytes `bytes[start..end]`.
fn ascii_ident(bytes: &[u8], start: usize, end: usize) -> (r: String)
    requires
        start <= end <= bytes@.len(),
    ensures
        r@ == ascii_chars(bytes@.subrange(start as int, end as int)),
{
    let mut r = String::new();
    let mut i = start;
    while i < end
        invariant
            start <= i <= end <= bytes@.len(),
            r@ == ascii_chars(bytes@.subrange(start as int, i as int)),
        decreases end - i,
    {
        push_char(&mut r, bytes[i] as char);
        assert(ascii_chars(bytes@.subrange(start as int, i + 1)) =~= ascii_chars(
            bytes@.subrange(start as int, i as int),
        ).push(bytes@[i as int] as char));
        i = i + 1;
    }
    r
}

fn offset_error(path: &str, prefix: &str, start: usize) -> (r: SkillPackageError)
    ensures
        r is Invalid && r.path_view() == path@ && r.message_view() == prefix@ + decimal_digits(
            start as nat,
        ),
{
    let digits = decimal(start);
    SkillPackageError::invalid(path, concat(prefix, digits.as_str()))
}

/// Splits JavaScript source into the tokens of the lexical model.
pub fn tokenize(path: &str, source: &str) -> (r: Result<Vec<Token>, SkillPackageError>)
    ensures
        lex_outcome(path@, r, lex(source.spec_bytes())),
        r matches Ok(v) ==> v@.len() <= source.spec_bytes().len(),
{
    let bytes = source.as_bytes();
    let ghost b = bytes@;
    let mut tokens: Vec<Token> = Vec::new();
    let mut index: usize = 0;
    assert(token_views(tokens@) =~= Seq::<SpecToken>::empty());
    while index < bytes.len()
        invariant
            b == bytes@,
            b == source.spec_bytes(),
            index <= b.len(),
            tokens@.len() <= index,
            lex(b) == lex_from(b, index as int, token_views(tokens@)),
        decreases bytes.len() - index,
    {
        let ghost t = token_views(tokens@);
        proof {
            lemma_lex_step_progress(b, index as int, t);
            reveal_strlit("unterminated JavaScript block comment at byte ");
        }
        let byte = bytes[index];
        if byte == 0x23 && index == 0 && bytes.len() > 1 && bytes[1] == 0x21 {
            index = skip_line(bytes, 2);
        } else if is_ascii_ws_byte(byte) {
            index = index + 1;
        } else if byte == 0x2f && index + 1 < bytes.len() && bytes[index + 1] == 0x2f {
            index = skip_line(bytes, index + 2);
        } else if byte == 0x2f && index + 1 < bytes.len() && bytes[index + 1] == 0x2a {
            let start = index;
            let end = skip_block_body(bytes, index + 2);
            if end >= bytes.len() - 1 {
                return Err(
                    offset_error(path, "unterminated JavaScript block comment at byte ", start),
                );
            }
            index = end + 2;
        } else if byte == 0x2f && regex_can_start_after(tokens.last()) {
            match skip_regex_body(bytes, index + 1) {
                Some(next) => {
                    index = next;
                },
                None => {
                    return Err(
                        offset_error(
                            path,
                            "unterminated JavaScript regular expression at byte ",
                            index,
                        ),
                    );
                },
            }
        } else if byte == 0x27 || byte == 0x22 {
            match string_body_end(bytes, index + 1, byte) {
                None => {
                    return Err(
                        offset_error(path, "unterminated JavaScript string at byte ", index),
                    );
                },
                Some((end, escaped)) => {
                    match utf8_text(bytes, index + 1, end) {
                        Ok(value) => {
                            tokens.push(Token::Str { value, escaped });
                            proof {
                                assert(token_views(tokens@) =~= t.push(
                                    SpecToken::Str(
                                        vstd::utf8::decode_utf8(
                                            b.subrange(index + 1, end as int),
                                        ),
                                        escaped,
                                    ),
                                ));
                            }
                            index = end + 1;
                        },
                        Err(detail) => {
                            return Err(
                                SkillPackageError::invalid(
                                    path,
                                    concat("invalid UTF-8 string: ", detail.as_str()),
                                ),
                            );
                        },
                    }
                },
            }
        } else if byte == 0x60 {
            match skip_template_body(bytes, index + 1) {
                Some(next) => {
                    index = next;
                },
                None => {
                    return Err(
                        offset_error(
                            path,
                            "unterminated JavaScript template literal at byte ",
                            index,
                        ),
                    );
                },
            }
        } else if is_ident_start_byte(byte) {
            let start = index;
            let end = skip_ident(bytes, index + 1);
            let value = ascii_ident(bytes, start, end);
            tokens.push(Token::Ident(value));
            proof {
                assert(token_views(tokens@) =~= t.push(
                    SpecToken::Ident(ascii_chars(b.subrange(start as int, end as int))),
                ));
            }
            index = end;
        } else {
            tokens.push(Token::Punct(byte));
            proof {
                assert(token_views(tokens@) =~= t.push(SpecToken::Punct(byte)));
            }
            index = index + 1;
        }
    }
    Ok(tokens)
}

// ---------------------------------------------------------------------------
// Import scanning
// ---------------------------------------------------------------------------
/// `e` reports failure `f` about `path`.
pub open spec fn reports(path: Seq<char>, e: SkillPackageError, f: ScanFailure) -> bool {
    e is Invalid && e.path_view() == path && e.message_view() == failure_message(f)
}

/// What a step of the import scanner promises for the model's step result:
/// the resume index (up to stopping at the end) and the specifiers, or the
/// model's error.
pub open spec fn step_outcome(
    path: Seq<char>,
    len: nat,
    r: Result<usize, SkillPackageError>,
    found: Seq<Seq<char>>,
    expected: Result<(int, Seq<Seq<char>>), ImportError>,
) -> bool {
    match (r, expected) {
        (Ok(k), Ok((j, acc))) => k <= len && (k == j || (j > len && k == len)) && found == acc,
        (Err(e), Err(f)) => reports(path, e, ScanFailure::Import(f)),
        _ => false,
    }
}

fn punct_at(tokens: &[Token], i: usize, c: u8) -> (r: bool)
    ensures
        r == is_punct(token_views(tokens@), i as int, c),
{
    if i < tokens.len() {
        match &tokens[i] {
            Token::Punct(b) => *b == c,
            _ => false,
        }
    } else {
        false
    }
}

fn ident_at(tokens: &[Token], i: usize, k: &str) -> (r: bool)
    ensures
        r == is_ident(token_views(tokens@), i as int, k@),
{
    if i < tokens.len() {
        match &tokens[i] {
            Token::Ident(s) => str_eq(s.as_str(), k),
            _ => false,
        }
    } else {
        false
    }
}

fn import_failure(path: &str, f: Ghost<ImportError>, message: &str) -> (r: SkillPackageError)
    requires
        message@ == failure_message(ScanFailure::Import(f@)),
    ensures
        reports(path@, r, ScanFailure::Import(f@)),
{
    SkillPackageError::invalid(path, message.to_owned())
}

/// Reads a `from` clause that begins at `start`, looking at most 64 tokens
/// ahead: stops after `;`, after `from "specifier"`, or before the next
/// `import`/`export`.
fn parse_from_clause(path: &str, tokens: &[Token], start: usize, imports: &mut Vec<String>) -> (r:
    Result<usize, SkillPackageError>)
    requires
        start <= tokens.len(),
    ensures
        step_outcome(
            path@,
            tokens@.len(),
            r,
            string_views(final(imports)@),
            from_clause(token_views(tokens@), start as int, start as int, string_views(old(imports)@)),
        ),
{
    let ghost t = token_views(tokens@);
    let ghost acc0 = string_views(imports@);
    let limit = if tokens.len() - start > 64 {
        start + 64
    } else {
        tokens.len()
    };
    let mut index = start;
    while index < limit
        invariant
            start <= index <= limit <= tokens.len(),
            limit as int == (if start + 64 < tokens@.len() {
                start + 64
            } else {
                tokens@.len() as int
            }),
            t == token_views(tokens@),
            string_views(imports@) == acc0,
            acc0 == string_views(old(imports)@),
            from_clause(t, start as int, start as int, acc0) == from_clause(
                t,
                start as int,
                index as int,
                acc0,
            ),
        decreases limit - index,
    {
        if punct_at(tokens, index, 0x3b) {
            return Ok(index + 1);
        }
        if ident_at(tokens, index, "from") {
            proof {
                reveal_strlit("from");
            }
            if index + 1 < tokens.len() {
                match &tokens[index + 1] {
                    Token::Str { value, escaped } => {
                        if *escaped {
                            return Err(
                                import_failure(
                                    path,
                                    Ghost(ImportError::SpecifierEscape),
                                    "JavaScript module specifiers must not use string escapes",
                                ),
                            );
                        }
                        imports.push(value.clone());
                        proof {
                            assert(string_views(imports@) =~= acc0.push(value@));
                        }
                        return Ok(index + 2);
                    },
                    _ => {},
                }
            }
            return Err(
                import_failure(
                    path,
                    Ghost(ImportError::FromNotPlainString),
                    "JavaScript import/export from must be followed by a plain string literal",
                ),
            );
        }
        if ident_at(tokens, index, "import") || ident_at(tokens, index, "export") {
            return Ok(index);
        }
        index = index + 1;
    }
    if index > start {
        Ok(index)
    } else if start < tokens.len() {
        Ok(start + 1)
    } else {
        Ok(tokens.len())
    }
}

/// After the `import` keyword at `index`.
fn parse_import(path: &str, tokens: &[Token], index: usize, imports: &mut Vec<String>) -> (r:
    Result<usize, SkillPackageError>)
    requires
        index < tokens.len(),
    ensures
        step_outcome(
            path@,
            tokens@.len(),
            r,
            string_views(final(imports)@),
            import_form(token_views(tokens@), index as int, string_views(old(imports)@)),
        ),
{
    let ghost acc0 = string_views(imports@);
    if punct_at(tokens, index + 1, 0x28) {
        return Err(
            import_failure(
                path,
                Ghost(ImportError::DynamicImport),
                "dynamic import() is not available in deterministic JavaScript modules",
            ),
        );
    }
    if index + 1 < tokens.len() {
        match &tokens[index + 1] {
            Token::Str { value, escaped } => {
                if *escaped {
                    return Err(
                        import_failure(
                            path,
                            Ghost(ImportError::SpecifierEscape),
                            "JavaScript module specifiers must not use string escapes",
                        ),
                    );
                }
                imports.push(value.clone());
                proof {
                    assert(string_views(imports@) =~= acc0.push(value@));
                }
                return Ok(index + 2);
            },
            _ => {},
        }
    }
    parse_from_clause(path, tokens, index + 1, imports)
}

/// After the `export` keyword at `index`: only `export {..} from` and
/// `export * from` name another module.
fn parse_export(path: &str, tokens: &[Token], index: usize, imports: &mut Vec<String>) -> (r:
    Result<usize, SkillPackageError>)
    requires
        index < tokens.len(),
    ensures
        step_outcome(
            path@,
            tokens@.len(),
            r,
            string_views(final(imports)@),
            export_form(token_views(tokens@), index as int, string_views(old(imports)@)),
        ),
{
    if punct_at(tokens, index + 1, 0x7b) || punct_at(tokens, index + 1, 0x2a) {
        parse_from_clause(path, tokens, index + 1, imports)
    } else {
        Ok(index + 1)
    }
}

/// The static-import specifiers of `tokens`, sorted and without duplicates.
fn imports_from_tokens(path: &str, tokens: &[Token]) -> (r: Result<Vec<String>, SkillPackageError>)
    ensures
        match (r, scan_imports(token_views(tokens@), 0, Seq::empty())) {
            (Ok(v), Ok(s)) => strictly_sorted(string_views(v@)) && string_views(v@).to_set()
                == s.to_set(),
            (Err(e), Err(f)) => reports(path@, e, ScanFailure::Import(f)),
            _ => false,
        },
{
    let ghost t = token_views(tokens@);
    let mut imports: Vec<String> = Vec::new();
    let mut index: usize = 0;
    proof {
        assert(string_views(imports@) =~= Seq::<Seq<char>>::empty());
    }
    while index < tokens.len()
        invariant
            index <= tokens.len(),
            t == token_views(tokens@),
            scan_imports(t, 0, Seq::empty()) == scan_imports(
                t,
                index as int,
                string_views(imports@),
            ),
        decreases tokens.len() - index,
    {
        let ghost acc = string_views(imports@);
        if ident_at(tokens, index, "import") {
            if index > 0 && punct_at(tokens, index - 1, 0x2e) {
                index = index + 1;
            } else {
                proof {
                    lemma_from_clause_progress(t, index + 1, index + 1, acc);
                }
                let next = parse_import(path, tokens, index, &mut imports);
                match next {
                    Ok(k) => {
                        proof {
                            if let Ok((j, acc2)) = import_form(t, index as int, acc) {
                                assert(scan_imports(t, index as int, acc) == scan_imports(
                                    t,
                                    j,
                                    acc2,
                                ));
                                assert(scan_imports(t, j, acc2) == scan_imports(t, k as int, acc2));
                            }
                        }
                        index = k;
                    },
                    Err(e) => {
                        return Err(e);
                    },
                }
            }
        } else if ident_at(tokens, index, "export") {
            proof {
                lemma_from_clause_progress(t, index + 1, index + 1, acc);
            }
            let next = parse_export(path, tokens, index, &mut imports);
            match next {
                Ok(k) => {
                    proof {
                        if let Ok((j, acc2)) = export_form(t, index as int, acc) {
                            assert(scan_imports(t, index as int, acc) == scan_imports(t, j, acc2));
                            assert(scan_imports(t, j, acc2) == scan_imports(t, k as int, acc2));
                        }
                    }
                    index = k;
                },
                Err(e) => {
                    return Err(e);
                },
            }
        } else {
            index = index + 1;
        }
    }
    Ok(sort_dedup(imports))
}

fn effectful_module_error(path: &str, boundary: &str) -> (r: SkillPackageError)
    ensures
        reports(path@, r, ScanFailure::Effect(boundary@)),
{
    let head = concat("deterministic JavaScript modules cannot own ", boundary);
    SkillPackageError::invalid(
        path,
        concat(head.as_str(), "; compose a native tool or declare a cli-tool boundary"),
    )
}

/// Rejects network calls, `require`, the runner's input plumbing and
/// `process.env`/`stdout`/`stderr` in a deterministic module.
fn reject_effectful_module_tokens(path: &str, tokens: &[Token]) -> (r: Result<(), SkillPackageError>)
    ensures
        match first_effect(token_views(tokens@), 0) {
            None => r is Ok,
            Some(boundary) => r matches Err(e) && reports(path@, e, ScanFailure::Effect(boundary)),
        },
{
    let ghost t = token_views(tokens@);
    let mut index: usize = 0;
    while index < tokens.len()
        invariant
            index <= tokens.len(),
            t == token_views(tokens@),
            first_effect(t, 0) == first_effect(t, index as int),
        decreases tokens.len() - index,
    {
        match &tokens[index] {
            Token::Ident(identifier) => {
                let name = identifier.as_str();
                proof {
                    reveal_strlit("process");
                }
                if (str_eq(name, "fetch") || str_eq(name, "require")) && punct_at(
                    tokens,
                    index + 1,
                    0x28,
                ) {
                    return Err(effectful_module_error(path, name));
                }
                if str_eq(name, "RUNX_INPUTS_JSON") || str_eq(name, "RUNX_INPUTS_PATH") {
                    return Err(effectful_module_error(path, name));
                }
                if str_eq(name, "process") && punct_at(tokens, index + 1, 0x2e) && index + 2
                    < tokens.len() && (ident_at(tokens, index + 2, "env") || ident_at(
                    tokens,
                    index + 2,
                    "stdout",
                ) || ident_at(tokens, index + 2, "stderr")) {
                    return Err(effectful_module_error(path, "process runtime plumbing"));
                }
            },
            _ => {},
        }
        index = index + 1;
    }
    Ok(())
}

/// Appends the specifiers of static `require("...")` calls to `imports`.
fn collect_static_requires(path: &str, tokens: &[Token], imports: &mut Vec<String>) -> (r: Result<
    (),
    SkillPackageError,
>)
    ensures
        match (r, scan_requires(token_views(tokens@), 0, string_views(old(imports)@))) {
            (Ok(_), Ok(acc)) => string_views(final(imports)@) == acc,
            (Err(e), Err(f)) => reports(path@, e, ScanFailure::Import(f)),
            _ => false,
        },
{
    let ghost t = token_views(tokens@);
    let ghost acc0 = string_views(imports@);
    let mut index: usize = 0;
    while index < tokens.len()
        invariant
            index <= tokens.len(),
            t == token_views(tokens@),
            scan_requires(t, 0, acc0) == scan_requires(t, index as int, string_views(imports@)),
            acc0 == string_views(old(imports)@),
        decreases tokens.len() - index,
    {
        let is_call = ident_at(tokens, index, "require") && !(index > 0 && punct_at(
            tokens,
            index - 1,
            0x2e,
        )) && punct_at(tokens, index + 1, 0x28);
        if is_call {
            let mut plain: bool = false;
            let mut escaped_specifier: bool = false;
            if tokens.len() - index > 2 {
                match &tokens[index + 2] {
                    Token::Str { value, escaped } => {
                        if *escaped {
                            escaped_specifier = true;
                        } else if punct_at(tokens, index + 3, 0x29) {
                            let ghost before = string_views(imports@);
                            imports.push(value.clone());
                            proof {
                                assert(string_views(imports@) =~= before.push(value@));
                            }
                            plain = true;
                        }
                    },
                    _ => {},
                }
            }
            if !plain {
                if escaped_specifier {
                    return Err(
                        import_failure(
                            path,
                            Ghost(ImportError::RequireEscape),
                            "CommonJS require specifiers must not use string escapes",
                        ),
                    );
                }
                return Err(
                    import_failure(
                        path,
                        Ghost(ImportError::RequireNotStatic),
                        "process-backed JavaScript may use only static require(\"specifier\") dependencies",
                    ),
                );
            }
        }
        index = index + 1;
    }
    Ok(())
}

proof fn lemma_concat_to_set(a: Seq<Seq<char>>, b: Seq<Seq<char>>)
    ensures
        (a + b).to_set() == a.to_set() + b.to_set(),
{
    assert forall|x: Seq<char>| (a + b).to_set().contains(x) == (a.to_set() + b.to_set()).contains(
        x,
    ) by {
        if (a + b).contains(x) {
            let i = choose|i: int| 0 <= i < (a + b).len() && (a + b)[i] == x;
            if i < a.len() {
                assert(a[i] == x);
            } else {
                assert(b[i - a.len()] == x);
            }
        }
        if a.contains(x) {
            let i = choose|i: int| 0 <= i < a.len() && a[i] == x;
            assert((a + b)[i] == x);
        }
        if b.contains(x) {
            let i = choose|i: int| 0 <= i < b.len() && b[i] == x;
            assert((a + b)[i + a.len()] == x);
        }
    }
    assert((a + b).to_set() =~= a.to_set() + b.to_set());
}

/// `scan_requires` continues whatever list it is given.
proof fn lemma_scan_requires_acc(t: Seq<SpecToken>, i: int, acc: Seq<Seq<char>>)
    ensures
        scan_requires(t, i, acc) == match scan_requires(t, i, Seq::empty()) {
            Ok(r) => Ok(acc + r),
            Err(e) => Err(e),
        },
    decreases t.len() - i,
{
    if i < 0 || i >= t.len() {
        assert(acc + Seq::<Seq<char>>::empty() =~= acc);
    } else if !is_ident(t, i, "require"@) || is_punct(t, i - 1, 0x2e) || !is_punct(t, i + 1, 0x28) {
        lemma_scan_requires_acc(t, i + 1, acc);
    } else if i + 2 < t.len() && t[i + 2] is Str && !t[i + 2]->Str_1 && is_punct(t, i + 3, 0x29) {
        let x = t[i + 2]->Str_0;
        lemma_scan_requires_acc(t, i + 1, acc.push(x));
        lemma_scan_requires_acc(t, i + 1, seq![x]);
        match scan_requires(t, i + 1, Seq::empty()) {
            Ok(r) => {
                assert(acc.push(x) + r =~= acc + (seq![x] + r));
                assert(Seq::<Seq<char>>::empty().push(x) =~= seq![x]);
            },
            Err(_) => {
                assert(Seq::<Seq<char>>::empty().push(x) =~= seq![x]);
            },
        }
    }
}

/// The modules a deterministic JavaScript module imports, sorted and without
/// duplicates; rejects effectful code and non-static imports.
pub fn module_imports(path: &str, source: &str) -> (r: Result<Vec<String>, SkillPackageError>)
    ensures
        scan_outcome(path@, r, module_import_list(source.spec_bytes())),
{
    let tokens = match tokenize(path, source) {
        Ok(tokens) => tokens,
        Err(e) => {
            return Err(e);
        },
    };
    match reject_effectful_module_tokens(path, tokens.as_slice()) {
        Ok(()) => {},
        Err(e) => {
            return Err(e);
        },
    }
    imports_from_tokens(path, tokens.as_slice())
}

/// The static module dependencies of a process-backed JavaScript tool
/// (imports and static `require` calls), sorted and without duplicates.
pub fn process_module_imports(path: &str, source: &str) -> (r: Result<
    Vec<String>,
    SkillPackageError,
>)
    ensures
        scan_outcome(path@, r, process_import_list(source.spec_bytes())),
{
    let tokens = match tokenize(path, source) {
        Ok(tokens) => tokens,
        Err(e) => {
            return Err(e);
        },
    };
    let ghost t = token_views(tokens@);
    let mut imports = match imports_from_tokens(path, tokens.as_slice()) {
        Ok(v) => v,
        Err(e) => {
            return Err(e);
        },
    };
    let ghost sorted = string_views(imports@);
    proof {
        lemma_scan_requires_acc(t, 0, sorted);
    }
    match collect_static_requires(path, tokens.as_slice(), &mut imports) {
        Ok(()) => {},
        Err(e) => {
            return Err(e);
        },
    }
    proof {
        if let Ok(s) = scan_imports(t, 0, Seq::empty()) {
            if let Ok(req) = scan_requires(t, 0, Seq::empty()) {
                lemma_concat_to_set(sorted, req);
                lemma_concat_to_set(s, req);
            }
        }
    }
    Ok(sort_dedup(imports))
}

} // verus!
