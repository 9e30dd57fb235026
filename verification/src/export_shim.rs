//! The pieces of an exported skill's host instructions: shell and YAML
//! quoting, indented description blocks, the embedded source manual, the
//! commands that inspect and run a runner, and the continuation protocol.
use vstd::prelude::*;

use crate::text::{concat, decimal, decimal_digits, is_ascii_alnum, join, joined, push_char, string_views};

verus! {

/// A character a shell word may hold unquoted.
pub open spec fn shell_plain(c: char) -> bool {
    is_ascii_alnum(c) || c == '/' || c == '.' || c == '_' || c == '-' || c == ':'
}

/// `s` with every `'` written as `'"'"'`.
pub open spec fn escape_single_quotes(s: Seq<char>) -> Seq<char>
    decreases s.len(),
{
    if s.len() == 0 {
        Seq::empty()
    } else {
        escape_single_quotes(s.drop_last()) + if s.last() == '\'' {
            "'\"'\"'"@
        } else {
            seq![s.last()]
        }
    }
}

/// A value as one shell word: as it is when every character is plain, else
/// single-quoted.
pub open spec fn shell_quote_spec(s: Seq<char>) -> Seq<char> {
    if forall|i: int| 0 <= i < s.len() ==> shell_plain(#[trigger] s[i]) {
        s
    } else {
        "'"@ + escape_single_quotes(s) + "'"@
    }
}

fn all_chars_plain(chars: &Vec<char>, yaml: bool) -> (r: bool)
    ensures
        r == forall|i: int|
            0 <= i < chars@.len() ==> (if yaml {
                yaml_plain(#[trigger] chars@[i])
            } else {
                shell_plain(chars@[i])
            }),
{
    let mut i: usize = 0;
    while i < chars.len()
        invariant
            i <= chars@.len(),
            forall|j: int|
                0 <= j < i ==> (if yaml {
                    yaml_plain(#[trigger] chars@[j])
                } else {
                    shell_plain(chars@[j])
                }),
        decreases chars.len() - i,
    {
        let c = chars[i];
        let alnum = (c >= 'a' && c <= 'z') || (c >= 'A' && c <= 'Z') || (c >= '0' && c <= '9');
        let ok = if yaml {
            alnum || c == '-' || c == '_' || c == '.'
        } else {
            alnum || c == '/' || c == '.' || c == '_' || c == '-' || c == ':'
        };
        if !ok {
            return false;
        }
        i = i + 1;
    }
    true
}

/// How a POSIX shell reads one word, one character at a time: the text so
/// far, the quoting in force (0 none, 1 single quotes, 2 double quotes),
/// and whether the word is still one plain word (no blank, no expansion,
/// no escape, no other shell syntax outside quotes).
pub open spec fn shell_step(st: (Seq<char>, int, bool), c: char) -> (Seq<char>, int, bool) {
    let (text, mode, ok) = st;
    if mode == 1 {
        if c == '\'' {
            (text, 0, ok)
        } else {
            (text.push(c), 1, ok)
        }
    } else if mode == 2 {
        if c == '"' {
            (text, 0, ok)
        } else if c == '\\' || c == '$' || c == '`' {
            (text, 2, false)
        } else {
            (text.push(c), 2, ok)
        }
    } else if c == '\'' {
        (text, 1, ok)
    } else if c == '"' {
        (text, 2, ok)
    } else if shell_plain(c) {
        (text.push(c), 0, ok)
    } else {
        (text, 0, false)
    }
}

/// The shell's reading of `s`, from state `st`.
pub open spec fn shell_read(s: Seq<char>, st: (Seq<char>, int, bool)) -> (Seq<char>, int, bool)
    decreases s.len(),
{
    if s.len() == 0 {
        st
    } else {
        shell_step(shell_read(s.drop_last(), st), s.last())
    }
}

proof fn lemma_shell_read_append(a: Seq<char>, b: Seq<char>, st: (Seq<char>, int, bool))
    ensures
        shell_read(a + b, st) == shell_read(b, shell_read(a, st)),
    decreases b.len(),
{
    if b.len() == 0 {
        assert(a + b =~= a);
    } else {
        assert((a + b).drop_last() =~= a + b.drop_last());
        assert((a + b).last() == b.last());
        lemma_shell_read_append(a, b.drop_last(), st);
    }
}

proof fn lemma_shell_read_escaped(s: Seq<char>, text: Seq<char>, ok: bool)
    ensures
        shell_read(escape_single_quotes(s), (text, 1, ok)) == (text + s, 1int, ok),
    decreases s.len(),
{
    if s.len() == 0 {
        assert(text + s =~= text);
    } else {
        let d = s.drop_last();
        lemma_shell_read_escaped(d, text, ok);
        let tail = if s.last() == '\'' {
            "'\"'\"'"@
        } else {
            seq![s.last()]
        };
        lemma_shell_read_append(escape_single_quotes(d), tail, (text, 1, ok));
        if s.last() == '\'' {
            reveal_strlit("'\"'\"'");
            let t = "'\"'\"'"@;
            assert(t.drop_last().drop_last().drop_last().drop_last().drop_last() =~= Seq::<char>::empty());
            assert(t.len() == 5 && t[0] == '\'' && t[1] == '"' && t[2] == '\'' && t[3] == '"' && t[4] == '\'');
            assert(t.drop_last().last() == '"');
            assert(t.drop_last().drop_last().last() == '\'');
            assert(t.drop_last().drop_last().drop_last().last() == '"');
            assert(t.drop_last().drop_last().drop_last().drop_last().last() == '\'');
            reveal_with_fuel(shell_read, 6);
            assert(shell_read(t, (text + d, 1, ok)) == ((text + d).push('\''), 1int, ok));
            assert((text + d).push('\'') =~= text + d + seq!['\'']);
        } else {
            assert(seq![s.last()].drop_last() =~= Seq::<char>::empty());
            reveal_with_fuel(shell_read, 2);
            assert(shell_read(seq![s.last()], (text + d, 1, ok)) == ((text + d).push(s.last()), 1int, ok));
            assert((text + d).push(s.last()) =~= text + d + seq![s.last()]);
        }
        assert(escape_single_quotes(s) == escape_single_quotes(d) + tail);
        assert(text + d + seq![s.last()] =~= text + s);
    }
}

/// Quoting keeps the value: the shell reads the quoted word back as exactly
/// the original value, as one word, with no expansion or other syntax
/// taking effect and no quote left open.
pub proof fn lemma_shell_quote_reads_back(s: Seq<char>)
    ensures
        shell_read(shell_quote_spec(s), (Seq::empty(), 0, true)) == (s, 0int, true),
{
    reveal_strlit("'");
    if forall|i: int| 0 <= i < s.len() ==> shell_plain(#[trigger] s[i]) {
        lemma_shell_read_plain(s);
    } else {
        let q = "'"@;
        let e = escape_single_quotes(s);
        assert(q.drop_last() =~= Seq::<char>::empty());
        assert(q.last() == '\'');
        reveal_with_fuel(shell_read, 2);
        assert(shell_read(q, (Seq::empty(), 0, true)) == (Seq::<char>::empty(), 1int, true));
        assert(shell_read(q, (s, 1, true)) == (s, 0int, true));
        lemma_shell_read_append(q, e, (Seq::empty(), 0, true));
        lemma_shell_read_escaped(s, Seq::empty(), true);
        assert(Seq::<char>::empty() + s =~= s);
        lemma_shell_read_append(q + e, q, (Seq::empty(), 0, true));
    }
}

proof fn lemma_shell_read_plain(s: Seq<char>)
    requires
        forall|i: int| 0 <= i < s.len() ==> shell_plain(#[trigger] s[i]),
    ensures
        shell_read(s, (Seq::empty(), 0, true)) == (s, 0int, true),
    decreases s.len(),
{
    if s.len() > 0 {
        let d = s.drop_last();
        assert forall|i: int| 0 <= i < d.len() implies shell_plain(#[trigger] d[i]) by {
            assert(d[i] == s[i]);
        }
        lemma_shell_read_plain(d);
        assert(shell_plain(s[s.len() - 1]));
        assert(s.last() != '\'' && s.last() != '"');
        assert(d.push(s.last()) =~= s);
    }
}

/// A value as one shell word.
pub fn shell_quote(value: &str) -> (r: String)
    ensures
        r@ == shell_quote_spec(value@),
{
    let chars = crate::text::chars_of(value);
    if all_chars_plain(&chars, false) {
        return value.to_owned();
    }
    let mut out = String::new();
    let mut i: usize = 0;
    assert(value@.subrange(0, 0) =~= Seq::<char>::empty());
    while i < chars.len()
        invariant
            i <= chars@.len(),
            chars@ == value@,
            out@ == escape_single_quotes(value@.subrange(0, i as int)),
        decreases chars.len() - i,
    {
        assert(value@.subrange(0, i + 1).drop_last() =~= value@.subrange(0, i as int));
        if chars[i] == '\'' {
            out.append("'\"'\"'");
        } else {
            let ghost before = out@;
            push_char(&mut out, chars[i]);
            assert(out@ =~= before + seq![chars@[i as int]]);
        }
        i = i + 1;
    }
    assert(value@.subrange(0, value@.len() as int) =~= value@);
    let head = concat("'", out.as_str());
    concat(head.as_str(), "'")
}

/// A character a YAML scalar may hold unquoted.
pub open spec fn yaml_plain(c: char) -> bool {
    is_ascii_alnum(c) || c == '-' || c == '_' || c == '.'
}

/// A lowercase hexadecimal digit.
pub open spec fn hex_digit_char(d: int) -> char {
    if d < 10 {
        (('0' as int) + d) as char
    } else {
        (('a' as int) + d - 10) as char
    }
}

/// How a character stands in a JSON string: `"` and `\` and the control
/// characters below U+0020 escaped (`\b`, `\t`, `\n`, `\f`, `\r`, else
/// `\u00` and two lowercase hex digits); every other character as it is.
pub open spec fn json_char_escape(c: char) -> Seq<char> {
    if c == '"' {
        seq!['\\', '"']
    } else if c == '\\' {
        seq!['\\', '\\']
    } else if c == '\u{8}' {
        seq!['\\', 'b']
    } else if c == '\t' {
        seq!['\\', 't']
    } else if c == '\n' {
        seq!['\\', 'n']
    } else if c == '\u{c}' {
        seq!['\\', 'f']
    } else if c == '\r' {
        seq!['\\', 'r']
    } else if (c as int) < 0x20 {
        seq!['\\', 'u', '0', '0', hex_digit_char((c as int) / 16), hex_digit_char((c as int) % 16)]
    } else {
        seq![c]
    }
}

/// The escaped characters of a string, in order.
pub open spec fn json_escaped(s: Seq<char>) -> Seq<char>
    decreases s.len(),
{
    if s.len() == 0 {
        Seq::empty()
    } else {
        json_escaped(s.drop_last()) + json_char_escape(s.last())
    }
}

/// The JSON string literal of `s`: its escaped characters between double
/// quotes.
pub open spec fn json_string_literal(s: Seq<char>) -> Seq<char> {
    seq!['"'] + json_escaped(s) + seq!['"']
}

/// The JSON string literal of a value.
///
/// Trusted: calls `serde_json::to_string` on the `&str`, which writes it as
/// one JSON string, escaping exactly as `json_string_literal` states.
/// Serializing a string does not fail; the fallback text is unreachable.
#[verifier::external_body]
pub(crate) fn json_quote(value: &str) -> (r: String)
    ensures
        r@ == json_string_literal(value@),
{
    serde_json::to_string(value).unwrap_or_else(|_| "\"runx-skill\"".to_owned())
}

/// A YAML scalar: as it is when every character is plain, else a JSON
/// string literal (which YAML reads as a double-quoted scalar).
pub fn yaml_plain_or_quoted(value: &str) -> (r: String)
    ensures
        r@ == if forall|i: int| 0 <= i < value@.len() ==> yaml_plain(#[trigger] value@[i]) {
            value@
        } else {
            json_string_literal(value@)
        },
{
    let chars = crate::text::chars_of(value);
    if all_chars_plain(&chars, true) {
        value.to_owned()
    } else {
        json_quote(value)
    }
}

/// The lines of `s` as `str::lines` yields them: split at `\n`, a `\r`
/// before a `\n` dropped, and no empty line after a final `\n`.
pub open spec fn lines_spec(s: Seq<char>) -> Seq<Seq<char>> {
    let pieces = crate::text::split_spec(s, '\n');
    let ended = pieces.subrange(0, pieces.len() - 1).map_values(
        |p: Seq<char>|
            if p.len() > 0 && p.last() == '\r' {
                p.drop_last()
            } else {
                p
            },
    );
    if pieces.last().len() == 0 {
        ended
    } else {
        ended.push(pieces.last())
    }
}

/// Each line indented by two spaces and ended by a newline.
pub open spec fn indented(lines: Seq<Seq<char>>) -> Seq<char>
    decreases lines.len(),
{
    if lines.len() == 0 {
        Seq::empty()
    } else {
        indented(lines.drop_last()) + "  "@ + lines.last() + "\n"@
    }
}

/// A YAML block scalar body: every line of `value` indented, and one
/// indented empty line for an empty value.
pub open spec fn indent_block_spec(value: Seq<char>) -> Seq<char> {
    if value.len() == 0 {
        indented(lines_spec(value)) + "  \n"@
    } else {
        indented(lines_spec(value))
    }
}

/// Indents a description for a YAML block scalar.
pub fn indent_block(value: &str) -> (r: String)
    ensures
        r@ == indent_block_spec(value@),
{
    let pieces = crate::text::split_on(value, '\n');
    let ghost ps = string_views(pieces@);
    let ghost ended = ps.subrange(0, ps.len() - 1).map_values(
        |p: Seq<char>|
            if p.len() > 0 && p.last() == '\r' {
                p.drop_last()
            } else {
                p
            },
    );
    let mut out = String::new();
    let mut i: usize = 0;
    let n = pieces.len() - 1;
    assert(ended.subrange(0, 0) =~= Seq::<Seq<char>>::empty());
    while i < n
        invariant
            n == pieces@.len() - 1,
            ps == string_views(pieces@),
            ps == crate::text::split_spec(value@, '\n'),
            ended == ps.subrange(0, ps.len() - 1).map_values(
                |p: Seq<char>|
                    if p.len() > 0 && p.last() == '\r' {
                        p.drop_last()
                    } else {
                        p
                    },
            ),
            i <= n,
            out@ == indented(ended.subrange(0, i as int)),
        decreases n - i,
    {
        assert(ended.subrange(0, i + 1).drop_last() =~= ended.subrange(0, i as int));
        let piece = pieces[i].as_str();
        let chars = crate::text::chars_of(piece);
        let line = if chars.len() > 0 && chars[chars.len() - 1] == '\r' {
            crate::text::string_from_range(&chars, 0, chars.len() - 1)
        } else {
            piece.to_owned()
        };
        proof {
            assert(ended[i as int] == line@) by {
                assert(ps[i as int] == piece@);
                if chars@.len() > 0 && chars@.last() == '\r' {
                    assert(piece@.drop_last() =~= chars@.subrange(0, chars@.len() - 1));
                }
            }
        }
        out.append("  ");
        out.append(line.as_str());
        out.append("\n");
        i = i + 1;
    }
    let last = pieces[n].as_str();
    if last.unicode_len() > 0 {
        out.append("  ");
        out.append(last);
        out.append("\n");
        proof {
            assert(ended.subrange(0, n as int) =~= ended);
            assert(ended.push(ps.last()).drop_last() =~= ended);
        }
    } else {
        assert(ended.subrange(0, n as int) =~= ended);
    }
    if value.unicode_len() == 0 {
        out.append("  \n");
    }
    out
}

/// The comment block that embeds the source manual.
pub open spec fn source_manual_spec(manual_digest: Seq<char>, package_digest: Seq<char>, markdown: Seq<char>) -> Seq<
    char,
> {
    "<!-- runx-source-manual-begin digest="@ + manual_digest + " package-digest="@ + package_digest + " bytes="@
        + decimal_digits((vstd::utf8::encode_utf8(markdown).len() as usize) as nat) + " -->\n"@ + markdown
        + "<!-- runx-source-manual-end -->\n\n"@
}

/// Embeds the source manual, with its digest and byte length.
pub fn render_source_manual(manual_digest: &str, package_digest: &str, manual_markdown: &str) -> (r: String)
    ensures
        r@ == source_manual_spec(manual_digest@, package_digest@, manual_markdown@),
{
    let a = concat("<!-- runx-source-manual-begin digest=", manual_digest);
    let b = concat(a.as_str(), " package-digest=");
    let c = concat(b.as_str(), package_digest);
    let d = concat(c.as_str(), " bytes=");
    let e = concat(d.as_str(), decimal(manual_markdown.len()).as_str());
    let f = concat(e.as_str(), " -->\n");
    let g = concat(f.as_str(), manual_markdown);
    concat(g.as_str(), "<!-- runx-source-manual-end -->\n\n")
}

/// The command that inspects a runner.
pub open spec fn inspect_command_spec(command_target: Seq<char>, runner: Option<Seq<char>>, runx_bin: Seq<char>) -> Seq<
    char,
> {
    shell_quote_spec(runx_bin) + " skill inspect "@ + shell_quote_spec(command_target) + match runner {
        Some(n) => " "@ + shell_quote_spec(n),
        None => Seq::empty(),
    } + " --json"@
}

/// Renders the command that inspects a runner.
pub fn render_inspect_command(command_target: &str, runner: Option<&str>, runx_bin: &str) -> (r: String)
    ensures
        r@ == inspect_command_spec(
            command_target@,
            match runner {
                Some(n) => Some(n@),
                None => None,
            },
            runx_bin@,
        ),
{
    let a = concat(shell_quote(runx_bin).as_str(), " skill inspect ");
    let mut command = concat(a.as_str(), shell_quote(command_target).as_str());
    let ghost base = command@;
    match runner {
        Some(name) => {
            command.append(" ");
            command.append(shell_quote(name).as_str());
            assert(command@ =~= base + (" "@ + shell_quote_spec(name@)));
        },
        None => {
            assert(command@ =~= base + Seq::<char>::empty());
        },
    }
    concat(command.as_str(), " --json")
}

/// The index of the runners other than the default.
pub open spec fn runner_index_spec(command_target: Seq<char>, runners: Seq<Option<Seq<char>>>, runx_bin: Seq<char>) -> Seq<
    char,
>
    decreases runners.len(),
{
    if runners.len() == 0 {
        "## Other runners\n\nSelect a non-default runner only when the source manual calls for it. Inspect it on demand for its inputs and exact execution-closure digest:\n\n"@
    } else {
        let name = match runners.last() {
            Some(n) => n,
            None => "default"@,
        };
        runner_index_spec(command_target, runners.drop_last(), runx_bin) + "- `"@ + name + "`: `"@
            + inspect_command_spec(command_target, runners.last(), runx_bin) + "`\n"@
    }
}

/// Lists the non-default runners with the commands that inspect them.
pub fn render_runner_index(command_target: &str, runners: &Vec<Option<String>>, runx_bin: &str) -> (r: String)
    ensures
        r@ == runner_index_spec(
            command_target@,
            runners@.map_values(
                |o: Option<String>|
                    match o {
                        Some(s) => Some(s@),
                        None => None,
                    },
            ),
            runx_bin@,
        ) + "\n"@,
{
    let ghost names = runners@.map_values(
        |o: Option<String>|
            match o {
                Some(s) => Some(s@),
                None => None,
            },
    );
    let mut output = "## Other runners\n\nSelect a non-default runner only when the source manual calls for it. Inspect it on demand for its inputs and exact execution-closure digest:\n\n".to_owned();
    let mut i: usize = 0;
    assert(names.subrange(0, 0) =~= Seq::<Option<Seq<char>>>::empty());
    while i < runners.len()
        invariant
            i <= runners@.len(),
            names == runners@.map_values(
                |o: Option<String>|
                    match o {
                        Some(s) => Some(s@),
                        None => None,
                    },
            ),
            output@ == runner_index_spec(command_target@, names.subrange(0, i as int), runx_bin@),
        decreases runners.len() - i,
    {
        assert(names.subrange(0, i + 1).drop_last() =~= names.subrange(0, i as int));
        let name = match &runners[i] {
            Some(n) => Some(n.as_str()),
            None => None,
        };
        let inspect = render_inspect_command(command_target, name, runx_bin);
        let shown = match name {
            Some(n) => n,
            None => "default",
        };
        let a = concat(output.as_str(), "- `");
        let b = concat(a.as_str(), shown);
        let c = concat(b.as_str(), "`: `");
        let d = concat(c.as_str(), inspect.as_str());
        output = concat(d.as_str(), "`\n");
        i = i + 1;
    }
    assert(names.subrange(0, runners@.len() as int) =~= names);
    concat(output.as_str(), "\n")
}

/// The text that tells the host how to read a result and continue a run.
pub open spec fn continuation_spec(package_digest: Seq<char>, closure_digest: Option<Seq<char>>, runx_bin: Seq<char>) -> Seq<
    char,
> {
    let binding = " --package-digest "@ + shell_quote_spec(package_digest) + match closure_digest {
        Some(d) => " --execution-closure-digest "@ + shell_quote_spec(d),
        None => Seq::empty(),
    };
    CONTINUATION_HEAD@ + shell_quote_spec(runx_bin) + " resume \"<run_id>\" -"@ + binding + CONTINUATION_TAIL@
}

/// The fixed opening of the continuation text, up to the resume command.
pub const CONTINUATION_HEAD: &'static str = "Interpret the runx JSON result exactly:
- `status` is lifecycle state; `outcome` says whether the promised operation completed. A sealed blocked or failed run is not success.
- If `status` is `sealed`, surface the outcome, receipt id, result, and artifact refs.
- If runx returns `needs_agent` or `needs_approval`, read only the selected digest-bound request artifact and obey its exact output contract and `allowed_tools`.
- Bind every answer to its `request_digest`; relay approval requests and never fabricate human approval.

Pipe the structured continuation object to the same digest-bound run; do not create a manual answer file:

```bash
printf '%s' \"$RUNX_ANSWERS_JSON\" | ";

/// The fixed close of the continuation text, after the resume command.
pub const CONTINUATION_TAIL: &'static str = " --json
```

Repeat until sealed or an exact operator approval/input is required. Never place signing seeds, provider tokens, or raw credentials in the continuation object or response.

";

/// Renders how a host reads a result and continues a paused run.
pub fn render_continuation(package_digest: &str, execution_closure_digest: Option<&str>, runx_bin: &str) -> (r: String)
    ensures
        r@ == continuation_spec(
            package_digest@,
            match execution_closure_digest {
                Some(d) => Some(d@),
                None => None,
            },
            runx_bin@,
        ),
{
    let mut binding = concat(" --package-digest ", shell_quote(package_digest).as_str());
    let ghost base = binding@;
    match execution_closure_digest {
        Some(d) => {
            binding.append(" --execution-closure-digest ");
            binding.append(shell_quote(d).as_str());
            assert(binding@ =~= base + (" --execution-closure-digest "@ + shell_quote_spec(d@)));
        },
        None => {
            assert(binding@ =~= base + Seq::<char>::empty());
        },
    }
    let a = concat(CONTINUATION_HEAD, shell_quote(runx_bin).as_str());
    let b = concat(a.as_str(), " resume \"<run_id>\" -");
    let c = concat(b.as_str(), binding.as_str());
    concat(c.as_str(), CONTINUATION_TAIL)
}

/// The lines of the command that runs a runner: the command, one
/// `--input-json` per value of the first example (given as JSON text), or
/// else one placeholder flag per required input without a default, then the
/// digests and `--json`.
pub open spec fn command_lines(
    command_target: Seq<char>,
    runner: Option<Seq<char>>,
    example: Option<Seq<(Seq<char>, Seq<char>)>>,
    inputs: Seq<(Seq<char>, bool, bool)>,
    package_digest: Seq<char>,
    closure_digest: Option<Seq<char>>,
    runx_bin: Seq<char>,
) -> Seq<Seq<char>> {
    let head = shell_quote_spec(runx_bin) + " skill "@ + shell_quote_spec(command_target) + match runner {
        Some(n) => " "@ + shell_quote_spec(n),
        None => Seq::empty(),
    };
    let middle = match example {
        Some(e) => e.map_values(
            |p: (Seq<char>, Seq<char>)| "  --input-json "@ + shell_quote_spec(p.0) + " "@ + shell_quote_spec(p.1),
        ),
        None => inputs.filter(|i: (Seq<char>, bool, bool)| i.1 && !i.2).map_values(
            |i: (Seq<char>, bool, bool)| "  --"@ + i.0 + " \"<"@ + i.0 + ">\""@,
        ),
    };
    let tail = seq!["  --package-digest "@ + shell_quote_spec(package_digest)] + match closure_digest {
        Some(d) => seq!["  --execution-closure-digest "@ + shell_quote_spec(d)],
        None => Seq::empty(),
    } + seq!["  --json"@];
    seq![head] + middle + tail
}

/// Renders the command that runs a runner, one flag per line.
pub fn render_command(
    command_target: &str,
    runner: Option<&str>,
    example: Option<&Vec<(String, String)>>,
    inputs: &Vec<(String, bool, bool)>,
    package_digest: &str,
    closure_digest: Option<&str>,
    runx_bin: &str,
) -> (r: String)
    ensures
        r@ == joined(
            command_lines(
                command_target@,
                match runner {
                    Some(n) => Some(n@),
                    None => None,
                },
                match example {
                    Some(e) => Some(e@.map_values(|p: (String, String)| (p.0@, p.1@))),
                    None => None,
                },
                inputs@.map_values(|i: (String, bool, bool)| (i.0@, i.1, i.2)),
                package_digest@,
                match closure_digest {
                    Some(d) => Some(d@),
                    None => None,
                },
                runx_bin@,
            ),
            " \\\n"@,
        ),
{
    let ghost runner_v = match runner {
        Some(n) => Some(n@),
        None => None,
    };
    let ghost example_v = match example {
        Some(e) => Some(e@.map_values(|p: (String, String)| (p.0@, p.1@))),
        None => None,
    };
    let ghost inputs_v = inputs@.map_values(|i: (String, bool, bool)| (i.0@, i.1, i.2));
    let ghost closure_v = match closure_digest {
        Some(d) => Some(d@),
        None => None,
    };
    let ghost expected = command_lines(command_target@, runner_v, example_v, inputs_v, package_digest@, closure_v, runx_bin@);
    let a = concat(shell_quote(runx_bin).as_str(), " skill ");
    let mut command = concat(a.as_str(), shell_quote(command_target).as_str());
    let ghost base = command@;
    match runner {
        Some(name) => {
            command.append(" ");
            command.append(shell_quote(name).as_str());
            assert(command@ =~= base + (" "@ + shell_quote_spec(name@)));
        },
        None => {
            assert(command@ =~= base + Seq::<char>::empty());
        },
    }
    let ghost head = command@;
    assert(expected[0] == head);
    let mut lines: Vec<String> = Vec::new();
    lines.push(command);
    let ghost middle = match example_v {
        Some(e) => e.map_values(
            |p: (Seq<char>, Seq<char>)| "  --input-json "@ + shell_quote_spec(p.0) + " "@ + shell_quote_spec(p.1),
        ),
        None => inputs_v.filter(|i: (Seq<char>, bool, bool)| i.1 && !i.2).map_values(
            |i: (Seq<char>, bool, bool)| "  --"@ + i.0 + " \"<"@ + i.0 + ">\""@,
        ),
    };
    match example {
        Some(e) => {
            let mut i: usize = 0;
            while i < e.len()
                invariant
                    i <= e@.len(),
                    example == Some(e),
                    middle == e@.map_values(|p: (String, String)| (p.0@, p.1@)).map_values(
                        |p: (Seq<char>, Seq<char>)| "  --input-json "@ + shell_quote_spec(p.0) + " "@ + shell_quote_spec(p.1),
                    ),
                    string_views(lines@) == seq![head] + middle.subrange(0, i as int),
                decreases e.len() - i,
            {
                let a = concat("  --input-json ", shell_quote(e[i].0.as_str()).as_str());
                let b = concat(a.as_str(), " ");
                let line = concat(b.as_str(), shell_quote(e[i].1.as_str()).as_str());
                let ghost before = string_views(lines@);
                lines.push(line);
                proof {
                    let mapped = e@.map_values(|p: (String, String)| (p.0@, p.1@));
                    assert(mapped[i as int] == (e@[i as int].0@, e@[i as int].1@));
                    assert(middle[i as int] == line@);
                    assert(string_views(lines@) =~= before.push(line@));
                }
                assert(string_views(lines@) =~= seq![head] + middle.subrange(0, i + 1));
                i = i + 1;
            }
            assert(middle.subrange(0, e@.len() as int) =~= middle);
        },
        None => {
            let ghost pred = |i: (Seq<char>, bool, bool)| i.1 && !i.2;
            let ghost render = |i: (Seq<char>, bool, bool)| "  --"@ + i.0 + " \"<"@ + i.0 + ">\""@;
            let mut i: usize = 0;
            proof {
                reveal(Seq::filter);
                assert(inputs_v.subrange(0, 0).filter(pred) =~= Seq::<(Seq<char>, bool, bool)>::empty());
            }
            while i < inputs.len()
                invariant
                    i <= inputs@.len(),
                    example is None,
                    inputs_v == inputs@.map_values(|i: (String, bool, bool)| (i.0@, i.1, i.2)),
                    pred == (|i: (Seq<char>, bool, bool)| i.1 && !i.2),
                    render == (|i: (Seq<char>, bool, bool)| "  --"@ + i.0 + " \"<"@ + i.0 + ">\""@),
                    middle == inputs_v.filter(pred).map_values(render),
                    string_views(lines@) == seq![head] + inputs_v.subrange(0, i as int).filter(pred).map_values(render),
                decreases inputs.len() - i,
            {
                proof {
                    reveal(Seq::filter);
                    assert(inputs_v.subrange(0, i + 1).drop_last() =~= inputs_v.subrange(0, i as int));
                }
                let (name, required, has_default) = &inputs[i];
                if *required && !*has_default {
                    let a = concat("  --", name.as_str());
                    let b = concat(a.as_str(), " \"<");
                    let c = concat(b.as_str(), name.as_str());
                    let line = concat(c.as_str(), ">\"");
                    let ghost before = inputs_v.subrange(0, i as int).filter(pred);
                    let ghost shown = string_views(lines@);
                    lines.push(line);
                    proof {
                        assert(inputs_v[i as int] == (name@, *required, *has_default));
                        assert(render(inputs_v[i as int]) == line@);
                        assert(string_views(lines@) =~= shown.push(line@));
                    }
                    assert(inputs_v.subrange(0, i + 1).filter(pred) =~= before.push(inputs_v[i as int]));
                    assert(string_views(lines@) =~= seq![head] + inputs_v.subrange(0, i + 1).filter(pred).map_values(render));
                } else {
                    assert(inputs_v.subrange(0, i + 1).filter(pred) =~= inputs_v.subrange(0, i as int).filter(pred));
                }
                i = i + 1;
            }
            assert(inputs_v.subrange(0, inputs@.len() as int) =~= inputs_v);
        },
    }
    lines.push(concat("  --package-digest ", shell_quote(package_digest).as_str()));
    match closure_digest {
        Some(d) => {
            lines.push(concat("  --execution-closure-digest ", shell_quote(d).as_str()));
        },
        None => {},
    }
    lines.push("  --json".to_owned());
    assert(string_views(lines@) =~= expected);
    join(&lines, " \\\n")
}

/// The section that documents the default runner: how to inspect it, the
/// command that runs it (from its first example, else a template), and the
/// continuation protocol.
pub fn render_default_runner(
    command_target: &str,
    runner: Option<&str>,
    example: Option<&Vec<(String, String)>>,
    inputs: &Vec<(String, bool, bool)>,
    package_digest: &str,
    closure_digest: Option<&str>,
    runx_bin: &str,
) -> (r: String)
    ensures
        ({
            let runner_v = match runner {
                Some(n) => Some(n@),
                None => None,
            };
            let closure_v = match closure_digest {
                Some(d) => Some(d@),
                None => None,
            };
            let title = match runner {
                Some(n) => n@,
                None => "default"@,
            };
            r@ == "## Default runner: `"@ + title + "`\n\n"@
                + "Inspect the exact input and effect contract on demand:\n\n```bash\n"@
                + inspect_command_spec(command_target@, runner_v, runx_bin@) + "\n```\n\n"@ + (if example is None {
                "Invocation template (replace placeholders before running):\n\n"@
            } else {
                "Validated invocation example:\n\n"@
            }) + "```bash\n"@ + joined(
                command_lines(
                    command_target@,
                    runner_v,
                    match example {
                        Some(e) => Some(e@.map_values(|p: (String, String)| (p.0@, p.1@))),
                        None => None,
                    },
                    inputs@.map_values(|i: (String, bool, bool)| (i.0@, i.1, i.2)),
                    package_digest@,
                    closure_v,
                    runx_bin@,
                ),
                " \\\n"@,
            ) + "\n```\n\n"@ + continuation_spec(package_digest@, closure_v, runx_bin@)
        }),
{
    let title = match runner {
        Some(n) => n,
        None => "default",
    };
    let a = concat("## Default runner: `", title);
    let b = concat(a.as_str(), "`\n\n");
    let c = concat(b.as_str(), "Inspect the exact input and effect contract on demand:\n\n```bash\n");
    let d = concat(c.as_str(), render_inspect_command(command_target, runner, runx_bin).as_str());
    let e = concat(d.as_str(), "\n```\n\n");
    let f = match example {
        None => concat(e.as_str(), "Invocation template (replace placeholders before running):\n\n"),
        Some(_) => concat(e.as_str(), "Validated invocation example:\n\n"),
    };
    let g = concat(f.as_str(), "```bash\n");
    let h = concat(
        g.as_str(),
        render_command(command_target, runner, example, inputs, package_digest, closure_digest, runx_bin).as_str(),
    );
    let i = concat(h.as_str(), "\n```\n\n");
    concat(i.as_str(), render_continuation(package_digest, closure_digest, runx_bin).as_str())
}

} // verus!
