//! What `runx skill inspect` prints: the inspection object as text.
use vstd::prelude::*;

use crate::json::{lookup, JsonModel, JsonObject, JsonValue};
use crate::json_text::{json_text, json_text_of, opt_view};

verus! {

// ---------------------------------------------------------------------------
// The inspection text
// ---------------------------------------------------------------------------
/// How a capability value is shown: a string as it is, anything else as
/// compact JSON.
pub open spec fn display_scalar(m: JsonModel) -> Option<Seq<char>> {
    match m {
        JsonModel::Str(s) => Some(s),
        _ => json_text(m),
    }
}

/// How a capability value is shown, unless it holds a float.
pub fn display_json_scalar(value: &JsonValue) -> (r: Option<String>)
    ensures
        opt_view(r) == display_scalar(value@),
{
    match value {
        JsonValue::String(s) => Some(s.clone()),
        _ => json_text_of(value),
    }
}

pub open spec fn string_at(e: Seq<(Seq<char>, JsonModel)>, key: Seq<char>) -> Option<Seq<char>> {
    match lookup(e, key) {
        Some(JsonModel::Str(s)) => Some(s),
        _ => None,
    }
}

pub open spec fn object_at(e: Seq<(Seq<char>, JsonModel)>, key: Seq<char>) -> Option<
    Seq<(Seq<char>, JsonModel)>,
> {
    match lookup(e, key) {
        Some(JsonModel::Object(o)) => Some(o),
        _ => None,
    }
}

pub open spec fn array_at(e: Seq<(Seq<char>, JsonModel)>, key: Seq<char>) -> Option<Seq<JsonModel>> {
    match lookup(e, key) {
        Some(JsonModel::Array(a)) => Some(a),
        _ => None,
    }
}

/// The key holds `true`.
pub open spec fn flag_at(e: Seq<(Seq<char>, JsonModel)>, key: Seq<char>) -> bool {
    lookup(e, key) == Some(JsonModel::Bool(true))
}

pub open spec fn or_default(o: Option<Seq<char>>, d: Seq<char>) -> Seq<char> {
    match o {
        Some(v) => v,
        None => d,
    }
}

/// `label: value` on a line of its own.
pub open spec fn line(label: Seq<char>, value: Seq<char>) -> Seq<char> {
    label + ": "@ + value + "\n"@
}

pub open spec fn optional_line(label: Seq<char>, value: Option<Seq<char>>) -> Seq<char> {
    match value {
        Some(v) => line(label, v),
        None => Seq::empty(),
    }
}

/// A declared input: name, type and whether it is required.
pub open spec fn input_line(m: JsonModel) -> Seq<char> {
    match m {
        JsonModel::Object(i) => "  - "@ + or_default(string_at(i, "name"@), "<unknown>"@) + ": "@
            + or_default(string_at(i, "type"@), "json"@) + " ("@ + (if flag_at(i, "required"@) {
            "required"@
        } else {
            "optional"@
        }) + ")\n"@,
        _ => Seq::empty(),
    }
}

/// A declared output: name and type.
pub open spec fn output_line(m: JsonModel) -> Seq<char> {
    match m {
        JsonModel::Object(o) => "  - "@ + or_default(string_at(o, "name"@), "<unknown>"@) + ": "@
            + or_default(string_at(o, "type"@), "json"@) + "\n"@,
        _ => Seq::empty(),
    }
}

/// A string item as a list entry.
pub open spec fn item_line(m: JsonModel) -> Seq<char> {
    match m {
        JsonModel::Str(s) => "  - "@ + s + "\n"@,
        _ => Seq::empty(),
    }
}

/// The entries of a list, each rendered by `kind` (0 inputs, 1 outputs,
/// 2 string items).
pub open spec fn list_lines(items: Seq<JsonModel>, kind: nat) -> Seq<char>
    decreases items.len(),
{
    if items.len() == 0 {
        Seq::empty()
    } else {
        list_lines(items.drop_last(), kind) + if kind == 0 {
            input_line(items.last())
        } else if kind == 1 {
            output_line(items.last())
        } else {
            item_line(items.last())
        }
    }
}

/// A titled list, shown only when the array is there and not empty.
pub open spec fn list_section(title: Seq<char>, items: Option<Seq<JsonModel>>, kind: nat) -> Seq<char> {
    match items {
        Some(a) => if a.len() > 0 {
            title + list_lines(a, kind)
        } else {
            Seq::empty()
        },
        None => Seq::empty(),
    }
}

pub open spec fn capability_line(caps: Seq<(Seq<char>, JsonModel)>, key: Seq<char>) -> Option<Seq<char>> {
    match lookup(caps, key) {
        None => Some(Seq::empty()),
        Some(v) => match display_scalar(v) {
            Some(t) => Some(line(key, t)),
            None => None,
        },
    }
}

/// The capability lines, in their fixed order.
pub open spec fn capabilities_text(o: Seq<(Seq<char>, JsonModel)>) -> Option<Seq<char>> {
    match object_at(o, "capabilities"@) {
        None => Some(Seq::empty()),
        Some(c) => match (
            capability_line(c, "execution"@),
            capability_line(c, "completion"@),
            capability_line(c, "requires_adapter"@),
            capability_line(c, "approval"@),
        ) {
            (Some(a), Some(b), Some(d), Some(e)) => Some(a + b + d + e),
            _ => None,
        },
    }
}

pub open spec fn readiness_text(o: Seq<(Seq<char>, JsonModel)>) -> Seq<char> {
    match object_at(o, "readiness"@) {
        Some(r) => optional_line("readiness"@, string_at(r, "status"@)),
        None => Seq::empty(),
    }
}

pub open spec fn credential_text(o: Seq<(Seq<char>, JsonModel)>) -> Seq<char> {
    match object_at(o, "credential"@) {
        Some(c) => "credential: "@ + or_default(string_at(c, "provider"@), "<unknown>"@) + " ("@
            + or_default(string_at(c, "status"@), "unknown"@) + ")\n"@,
        None => Seq::empty(),
    }
}

pub open spec fn resume_text(o: Seq<(Seq<char>, JsonModel)>) -> Seq<char> {
    match object_at(o, "resume"@) {
        Some(r) => if flag_at(r, "may_pause"@) {
            line("resume"@, or_default(string_at(r, "command"@), "runx resume <run-id> answers.json"@))
        } else {
            Seq::empty()
        },
        None => Seq::empty(),
    }
}

/// What follows the header when the inspection names a runner.
pub open spec fn runner_text(
    o: Seq<(Seq<char>, JsonModel)>,
    runner: Seq<(Seq<char>, JsonModel)>,
    provider_readiness: Seq<char>,
) -> Option<Seq<char>> {
    match capabilities_text(o) {
        None => None,
        Some(caps) => Some(
            line("runner"@, or_default(string_at(runner, "name"@), "<unknown>"@)) + optional_line(
                "type"@,
                string_at(runner, "type"@),
            ) + readiness_text(o) + provider_readiness + credential_text(o) + caps + list_section(
                "inputs:\n"@,
                array_at(runner, "inputs"@),
                0,
            ) + list_section("outputs:\n"@, array_at(runner, "outputs"@), 1) + list_section(
                "examples:\n"@,
                array_at(o, "examples"@),
                2,
            ) + resume_text(o) + "run: runx skill <skill> [runner]\n"@,
        ),
    }
}

/// The inspection as text. The provider readiness lines come in ready
/// made; the text exists unless a shown capability holds a float.
pub open spec fn inspection_spec(value: JsonModel, provider_readiness: Seq<char>) -> Option<Seq<char>> {
    match value {
        JsonModel::Object(o) => {
            let head = line("skill"@, or_default(string_at(o, "name"@), "<unnamed>"@)) + optional_line(
                "description"@,
                string_at(o, "description"@),
            ) + optional_line("version"@, string_at(o, "version"@));
            match object_at(o, "runner"@) {
                Some(runner) => match runner_text(o, runner, provider_readiness) {
                    Some(t) => Some(head + t),
                    None => None,
                },
                None => match array_at(o, "runners"@) {
                    Some(names) => Some(
                        head + "runners:\n"@ + list_lines(names, 2) + "next: runx skill <skill> <runner>\n"@,
                    ),
                    None => Some(head),
                },
            }
        },
        _ => Some("{}\n"@),
    }
}

fn string_at_exec<'a>(o: &'a JsonObject, key: &str) -> (r: Option<&'a String>)
    ensures
        opt_ref_view(r) == string_at(o@, key@),
{
    match o.get(key) {
        Some(v) => v.as_str(),
        None => None,
    }
}

fn object_at_exec<'a>(o: &'a JsonObject, key: &str) -> (r: Option<&'a JsonObject>)
    ensures
        match object_at(o@, key@) {
            Some(x) => r matches Some(y) && y@ == x,
            None => r is None,
        },
{
    match o.get(key) {
        Some(v) => v.as_object(),
        None => None,
    }
}

fn array_at_exec<'a>(o: &'a JsonObject, key: &str) -> (r: Option<&'a Vec<JsonValue>>)
    ensures
        match array_at(o@, key@) {
            Some(x) => r matches Some(y) && x.len() == y@.len() && forall|i: int|
                0 <= i < x.len() ==> #[trigger] x[i] == y@[i]@,
            None => r is None,
        },
{
    match o.get(key) {
        Some(v) => v.as_array(),
        None => None,
    }
}

fn flag_at_exec(o: &JsonObject, key: &str) -> (r: bool)
    ensures
        r == flag_at(o@, key@),
{
    match o.get(key) {
        Some(v) => match v.as_bool() {
            Some(b) => b,
            None => false,
        },
        None => false,
    }
}

pub open spec fn opt_ref_view(o: Option<&String>) -> Option<Seq<char>> {
    match o {
        Some(s) => Some(s@),
        None => None,
    }
}

fn or_default_exec<'a>(o: Option<&'a String>, d: &'a str) -> (r: &'a str)
    ensures
        r@ == or_default(opt_ref_view(o), d@),
{
    match o {
        Some(s) => s.as_str(),
        None => d,
    }
}

fn push_line(out: &mut String, label: &str, value: &str)
    ensures
        final(out)@ == old(out)@ + line(label@, value@),
{
    out.append(label);
    out.append(": ");
    out.append(value);
    out.append("\n");
}

fn push_optional_line(out: &mut String, label: &str, value: Option<&String>)
    ensures
        final(out)@ == old(out)@ + optional_line(label@, opt_ref_view(value)),
{
    match value {
        Some(v) => push_line(out, label, v.as_str()),
        None => {
            assert(old(out)@ + Seq::<char>::empty() =~= old(out)@);
        },
    }
}

fn push_list_lines(out: &mut String, items: &Vec<JsonValue>, kind: u8)
    requires
        kind <= 2,
    ensures
        final(out)@ == old(out)@ + list_lines(items@.map_values(|v: JsonValue| v@), kind as nat),
{
    let ghost model = items@.map_values(|v: JsonValue| v@);
    let ghost start = out@;
    let mut i: usize = 0;
    assert(model.subrange(0, 0) =~= Seq::<JsonModel>::empty());
    assert(start + Seq::<char>::empty() =~= start);
    while i < items.len()
        invariant
            i <= items@.len(),
            kind <= 2,
            model == items@.map_values(|v: JsonValue| v@),
            out@ == start + list_lines(model.subrange(0, i as int), kind as nat),
        decreases items.len() - i,
    {
        proof {
            assert(model.subrange(0, i + 1).drop_last() =~= model.subrange(0, i as int));
            assert(model.subrange(0, i + 1).last() == items@[i as int]@);
        }
        let ghost before = out@;
        let item = &items[i];
        if kind == 0 {
            match item.as_object() {
                Some(input) => {
                    out.append("  - ");
                    out.append(or_default_exec(string_at_exec(input, "name"), "<unknown>"));
                    out.append(": ");
                    out.append(or_default_exec(string_at_exec(input, "type"), "json"));
                    out.append(" (");
                    if flag_at_exec(input, "required") {
                        out.append("required");
                    } else {
                        out.append("optional");
                    }
                    out.append(")\n");
                },
                None => {},
            }
        } else if kind == 1 {
            match item.as_object() {
                Some(output) => {
                    out.append("  - ");
                    out.append(or_default_exec(string_at_exec(output, "name"), "<unknown>"));
                    out.append(": ");
                    out.append(or_default_exec(string_at_exec(output, "type"), "json"));
                    out.append("\n");
                },
                None => {},
            }
        } else {
            match item.as_str() {
                Some(text) => {
                    out.append("  - ");
                    out.append(text.as_str());
                    out.append("\n");
                },
                None => {},
            }
        }
        proof {
            let m = items@[i as int]@;
            let l = if kind == 0 {
                input_line(m)
            } else if kind == 1 {
                output_line(m)
            } else {
                item_line(m)
            };
            assert(out@ =~= before + l);
            assert(start + list_lines(model.subrange(0, i + 1), kind as nat) =~= before + l);
        }
        i = i + 1;
    }
    assert(model.subrange(0, items@.len() as int) =~= model);
}

fn push_list_section(out: &mut String, title: &str, items: Option<&Vec<JsonValue>>, kind: u8)
    requires
        kind <= 2,
    ensures
        final(out)@ == old(out)@ + list_section(title@, vec_models(items), kind as nat),
{
    match items {
        Some(v) => {
            if v.len() > 0 {
                out.append(title);
                push_list_lines(out, v, kind);
                assert(out@ =~= old(out)@ + (title@ + list_lines(v@.map_values(|x: JsonValue| x@), kind as nat)));
            } else {
                assert(old(out)@ + Seq::<char>::empty() =~= old(out)@);
            }
        },
        None => {
            assert(old(out)@ + Seq::<char>::empty() =~= old(out)@);
        },
    }
}

pub open spec fn vec_models(items: Option<&Vec<JsonValue>>) -> Option<Seq<JsonModel>> {
    match items {
        Some(v) => Some(v@.map_values(|x: JsonValue| x@)),
        None => None,
    }
}

fn capability_line_exec(out: &mut String, caps: &JsonObject, key: &str) -> (ok: bool)
    ensures
        match capability_line(caps@, key@) {
            Some(t) => ok && final(out)@ == old(out)@ + t,
            None => !ok,
        },
{
    match caps.get(key) {
        None => {
            assert(old(out)@ + Seq::<char>::empty() =~= old(out)@);
            true
        },
        Some(v) => match display_json_scalar(v) {
            Some(t) => {
                push_line(out, key, t.as_str());
                true
            },
            None => false,
        },
    }
}

fn push_capabilities(out: &mut String, o: &JsonObject) -> (ok: bool)
    ensures
        match capabilities_text(o@) {
            Some(t) => ok && final(out)@ == old(out)@ + t,
            None => !ok,
        },
{
    match object_at_exec(o, "capabilities") {
        Some(caps) => {
            let ghost start = out@;
            if !capability_line_exec(out, caps, "execution") {
                return false;
            }
            let ghost a = out@;
            if !capability_line_exec(out, caps, "completion") {
                return false;
            }
            let ghost b = out@;
            if !capability_line_exec(out, caps, "requires_adapter") {
                return false;
            }
            let ghost d = out@;
            if !capability_line_exec(out, caps, "approval") {
                return false;
            }
            proof {
                let ta = capability_line(caps@, "execution"@)->0;
                let tb = capability_line(caps@, "completion"@)->0;
                let td = capability_line(caps@, "requires_adapter"@)->0;
                let te = capability_line(caps@, "approval"@)->0;
                assert(out@ =~= start + (ta + tb + td + te));
            }
            true
        },
        None => {
            assert(old(out)@ + Seq::<char>::empty() =~= old(out)@);
            true
        },
    }
}

fn push_runner_head(out: &mut String, o: &JsonObject, runner: &JsonObject, provider_readiness: &str)
    ensures
        final(out)@ == old(out)@ + (line("runner"@, or_default(string_at(runner@, "name"@), "<unknown>"@))
            + optional_line("type"@, string_at(runner@, "type"@)) + readiness_text(o@)
            + provider_readiness@ + credential_text(o@)),
{
    let ghost start = out@;
    push_line(out, "runner", or_default_exec(string_at_exec(runner, "name"), "<unknown>"));
    push_optional_line(out, "type", string_at_exec(runner, "type"));
    let ghost a = out@;
    match object_at_exec(o, "readiness") {
        Some(readiness) => push_optional_line(out, "readiness", string_at_exec(readiness, "status")),
        None => {},
    }
    assert(out@ =~= a + readiness_text(o@));
    out.append(provider_readiness);
    let ghost b = out@;
    match object_at_exec(o, "credential") {
        Some(credential) => {
            out.append("credential: ");
            out.append(or_default_exec(string_at_exec(credential, "provider"), "<unknown>"));
            out.append(" (");
            out.append(or_default_exec(string_at_exec(credential, "status"), "unknown"));
            out.append(")\n");
        },
        None => {},
    }
    assert(out@ =~= b + credential_text(o@));
    assert(out@ =~= start + (line("runner"@, or_default(string_at(runner@, "name"@), "<unknown>"@))
        + optional_line("type"@, string_at(runner@, "type"@)) + readiness_text(o@)
        + provider_readiness@ + credential_text(o@)));
}

fn push_runner_tail(out: &mut String, o: &JsonObject, runner: &JsonObject)
    ensures
        final(out)@ == old(out)@ + (list_section("inputs:\n"@, array_at(runner@, "inputs"@), 0)
            + list_section("outputs:\n"@, array_at(runner@, "outputs"@), 1) + list_section(
            "examples:\n"@,
            array_at(o@, "examples"@),
            2,
        ) + resume_text(o@) + "run: runx skill <skill> [runner]\n"@),
{
    let ghost start = out@;
    let inputs = array_at_exec(runner, "inputs");
    let outputs = array_at_exec(runner, "outputs");
    let examples = array_at_exec(o, "examples");
    proof {
        let im = vec_models(inputs);
        let om = vec_models(outputs);
        let em = vec_models(examples);
        if im is Some {
            assert(im->0 =~= array_at(runner@, "inputs"@)->0);
        }
        if om is Some {
            assert(om->0 =~= array_at(runner@, "outputs"@)->0);
        }
        if em is Some {
            assert(em->0 =~= array_at(o@, "examples"@)->0);
        }
    }
    push_list_section(out, "inputs:\n", inputs, 0);
    push_list_section(out, "outputs:\n", outputs, 1);
    push_list_section(out, "examples:\n", examples, 2);
    let ghost a = out@;
    match object_at_exec(o, "resume") {
        Some(resume) => {
            if flag_at_exec(resume, "may_pause") {
                push_line(
                    out,
                    "resume",
                    or_default_exec(string_at_exec(resume, "command"), "runx resume <run-id> answers.json"),
                );
            }
        },
        None => {},
    }
    assert(out@ =~= a + resume_text(o@));
    out.append("run: runx skill <skill> [runner]\n");
    assert(out@ =~= start + (list_section("inputs:\n"@, array_at(runner@, "inputs"@), 0)
        + list_section("outputs:\n"@, array_at(runner@, "outputs"@), 1) + list_section(
        "examples:\n"@,
        array_at(o@, "examples"@),
        2,
    ) + resume_text(o@) + "run: runx skill <skill> [runner]\n"@));
}

fn push_runner_text(out: &mut String, o: &JsonObject, runner: &JsonObject, provider_readiness: &str) -> (ok: bool)
    ensures
        match runner_text(o@, runner@, provider_readiness@) {
            Some(t) => ok && final(out)@ == old(out)@ + t,
            None => !ok,
        },
{
    let ghost start = out@;
    push_runner_head(out, o, runner, provider_readiness);
    let ghost a = out@;
    if !push_capabilities(out, o) {
        return false;
    }
    let ghost b = out@;
    push_runner_tail(out, o, runner);
    proof {
        let caps = capabilities_text(o@)->0;
        assert(b == a + caps);
        assert(out@ =~= start + runner_text(o@, runner@, provider_readiness@)->0);
    }
    true
}

fn push_runner_names(out: &mut String, o: &JsonObject)
    ensures
        final(out)@ == old(out)@ + match array_at(o@, "runners"@) {
            Some(names) => "runners:\n"@ + list_lines(names, 2) + "next: runx skill <skill> <runner>\n"@,
            None => Seq::empty(),
        },
{
    match array_at_exec(o, "runners") {
        Some(names) => {
            let ghost start = out@;
            out.append("runners:\n");
            let ghost nm = names@.map_values(|x: JsonValue| x@);
            proof {
                assert(nm =~= array_at(o@, "runners"@)->0);
            }
            push_list_lines(out, names, 2);
            out.append("next: runx skill <skill> <runner>\n");
            assert(out@ =~= start + ("runners:\n"@ + list_lines(nm, 2)
                + "next: runx skill <skill> <runner>\n"@));
        },
        None => {
            assert(old(out)@ + Seq::<char>::empty() =~= old(out)@);
        },
    }
}

/// The text that inspecting a skill prints, given the provider readiness
/// lines; `None` when a shown capability holds a float, whose digits the
/// JSON writer chooses.
pub fn inspection_text(value: &JsonValue, provider_readiness: &str) -> (r: Option<String>)
    ensures
        opt_view(r) == inspection_spec(value@, provider_readiness@),
{
    let o = match value.as_object() {
        Some(o) => o,
        None => {
            return Some("{}\n".to_owned());
        },
    };
    let mut out = String::new();
    push_line(&mut out, "skill", or_default_exec(string_at_exec(o, "name"), "<unnamed>"));
    push_optional_line(&mut out, "description", string_at_exec(o, "description"));
    push_optional_line(&mut out, "version", string_at_exec(o, "version"));
    let ghost head = out@;
    assert(head =~= line("skill"@, or_default(string_at(o@, "name"@), "<unnamed>"@)) + optional_line(
        "description"@,
        string_at(o@, "description"@),
    ) + optional_line("version"@, string_at(o@, "version"@)));
    match object_at_exec(o, "runner") {
        Some(runner) => {
            if push_runner_text(&mut out, o, runner, provider_readiness) {
                Some(out)
            } else {
                None
            }
        },
        None => {
            push_runner_names(&mut out, o);
            proof {
                if array_at(o@, "runners"@) is None {
                    assert(out@ =~= head);
                }
            }
            Some(out)
        },
    }
}

} // verus!
