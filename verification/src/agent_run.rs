//! The decisions of an agent-front skill run: where its answer comes from,
//! which run it continues or what run id it derives, whether the
//! in-process managed agent may resolve it, and the checkpoint a run leaves
//! when it pauses for its host.
use vstd::prelude::*;

use crate::execution_closure::SourceKind;
use crate::export_shim::{json_quote, json_string_literal};
use crate::json::{clone_object, JsonModel, JsonObject, JsonValue};
use crate::json_text::{entries_text, json_text, json_text_of, lemma_entries_text_push, opt_view};
use crate::package_source::{hex_lower, sha256_digest, sha256_prefixed};
use crate::js_engine::{char_width, lemma_utf8_push, utf8_len, width_of};
use crate::text::{concat, is_ascii_upper, starts_with, starts_with_spec};

verus! {

/// Where the answer of an agent request comes from.
#[derive(Clone, Copy, Debug, PartialEq, Eq)]
pub enum AgentAnswerSource {
    /// An answer seeded for this request (a harness case), used first.
    Seeded,
    /// The answers file of a resumed run.
    AnswersFile,
    /// The in-process managed agent if it may run, else the host's loop.
    Inline,
}

/// Seeded answers win over the resume file; without either the run tries
/// the managed agent and otherwise yields to the host.
pub fn agent_answer_source(has_seeded_answer: bool, has_answers_path: bool) -> (r: AgentAnswerSource)
    ensures
        r == (if has_seeded_answer {
            AgentAnswerSource::Seeded
        } else if has_answers_path {
            AgentAnswerSource::AnswersFile
        } else {
            AgentAnswerSource::Inline
        }),
{
    if has_seeded_answer {
        AgentAnswerSource::Seeded
    } else if has_answers_path {
        AgentAnswerSource::AnswersFile
    } else {
        AgentAnswerSource::Inline
    }
}

/// The run an agent request continues: a continuation names both its run
/// id and its answers; a fresh run names neither and derives its id.
pub fn continuation_run_id(run_id: Option<&str>, has_answers: bool) -> (r: Result<Option<String>, String>)
    ensures
        match (run_id, has_answers) {
            (Some(id), true) => r matches Ok(Some(x)) && x@ == id@,
            (None, false) => r == Ok::<Option<String>, String>(None),
            _ => r matches Err(m) && m@ == "skill continuation requires both run_id and answers"@,
        },
{
    match (run_id, has_answers) {
        (Some(id), true) => Ok(Some(id.to_owned())),
        (None, false) => Ok(None),
        _ => Err("skill continuation requires both run_id and answers".to_owned()),
    }
}

/// The first sixteen bytes of `v`, when a character boundary falls there.
pub open spec fn first_sixteen_bytes(v: Seq<char>) -> Option<Seq<char>> {
    if exists|k: int| 0 <= k <= v.len() && #[trigger] utf8_len(v.take(k)) == 16 {
        Some(v.take(choose|k: int| 0 <= k <= v.len() && #[trigger] utf8_len(v.take(k)) == 16))
    } else {
        None
    }
}

proof fn lemma_prefix_lengths_increase(v: Seq<char>, j: int, k: int)
    requires
        0 <= j < k <= v.len(),
    ensures
        utf8_len(v.take(j)) < utf8_len(v.take(k)),
    decreases k - j,
{
    assert(v.take(k) =~= v.take(k - 1).push(v[k - 1]));
    lemma_utf8_push(v.take(k - 1), v[k - 1]);
    crate::js_engine::lemma_char_width_positive(v[k - 1]);
    if j < k - 1 {
        lemma_prefix_lengths_increase(v, j, k - 1);
    }
}

/// A fresh run's id from the identity digest: `run_`, the request's
/// identifier segment, `_`, and the first sixteen digits of the digest.
pub open spec fn derived_run_id_spec(request_segment: Seq<char>, identity_digest: Seq<char>) -> Result<
    Seq<char>,
    Seq<char>,
> {
    let rest = identity_digest.subrange(7, identity_digest.len() as int);
    if starts_with_spec(identity_digest, "sha256:"@) && first_sixteen_bytes(rest) is Some {
        Ok("run_"@ + request_segment + "_"@ + first_sixteen_bytes(rest)->0)
    } else {
        Err("failed to derive agent run identity digest"@)
    }
}

/// A fresh agent run's id: `run_`, the request's identifier segment, `_`,
/// and the first sixteen digits of the run identity's `sha256:` digest.
pub fn derived_agent_run_id(request_segment: &str, identity_digest: &str) -> (r: Result<String, String>)
    ensures
        match derived_run_id_spec(request_segment@, identity_digest@) {
            Ok(x) => r matches Ok(y) && y@ == x,
            Err(m) => r matches Err(y) && y@ == m,
        },
{
    proof {
        reveal_strlit("sha256:");
    }
    if !starts_with(identity_digest, "sha256:") {
        return Err("failed to derive agent run identity digest".to_owned());
    }
    let chars = crate::text::chars_of(identity_digest);
    let ghost rest = identity_digest@.subrange(7, identity_digest@.len() as int);
    let mut used: usize = 0;
    let mut k: usize = 7;
    assert(rest.take(0) =~= Seq::<char>::empty());
    while k < chars.len() && used < 16
        invariant
            7 <= k <= chars@.len(),
            chars@ == identity_digest@,
            rest == identity_digest@.subrange(7, identity_digest@.len() as int),
            used == utf8_len(rest.take(k - 7)),
            used <= 16,
            forall|j: int| 0 <= j < k - 7 ==> #[trigger] utf8_len(rest.take(j)) < 16,
        decreases chars.len() - k,
    {
        let w = width_of(chars[k]);
        proof {
            assert(rest.take(k - 7 + 1) =~= rest.take(k - 7).push(rest[k - 7]));
            assert(rest[k - 7] == chars@[k as int]);
            lemma_utf8_push(rest.take(k - 7), rest[k - 7]);
        }
        if used + w > 16 {
            proof {
                assert forall|j: int| 0 <= j <= rest.len() implies #[trigger] utf8_len(rest.take(j)) != 16 by {
                    if j <= k - 7 {
                        if j < k - 7 {
                        } else {
                            assert(used < 16);
                        }
                    } else if j > k - 7 + 1 {
                        lemma_prefix_lengths_increase(rest, k - 7 + 1, j);
                    }
                }
                assert(!(exists|j: int| 0 <= j <= rest.len() && #[trigger] utf8_len(rest.take(j)) == 16));
            }
            return Err("failed to derive agent run identity digest".to_owned());
        }
        used = used + w;
        k = k + 1;
    }
    if used != 16 {
        proof {
            assert(k == chars@.len());
            assert(rest.take(k - 7) =~= rest);
            assert forall|j: int| 0 <= j <= rest.len() implies #[trigger] utf8_len(rest.take(j)) != 16 by {
                if j < k - 7 {
                    lemma_prefix_lengths_increase(rest, j, k - 7);
                }
            }
        }
        return Err("failed to derive agent run identity digest".to_owned());
    }
    proof {
        let c = choose|j: int| 0 <= j <= rest.len() && #[trigger] utf8_len(rest.take(j)) == 16;
        if c != k - 7 {
            if c < k - 7 {
                lemma_prefix_lengths_increase(rest, c, k - 7);
            } else {
                lemma_prefix_lengths_increase(rest, k - 7, c);
            }
        }
        assert(rest.take(k - 7) =~= chars@.subrange(7, k as int));
    }
    let digits = crate::text::string_from_range(&chars, 7, k);
    let a = concat("run_", request_segment);
    let b = concat(a.as_str(), "_");
    Ok(concat(b.as_str(), digits.as_str()))
}

/// Whether two strings are equal ignoring ASCII case.
pub open spec fn ascii_lower(c: char) -> char {
    if is_ascii_upper(c) {
        ((c as u32) + 32) as char
    } else {
        c
    }
}

pub open spec fn eq_ignore_ascii_case_spec(a: Seq<char>, b: Seq<char>) -> bool {
    a.len() == b.len() && forall|i: int| 0 <= i < a.len() ==> ascii_lower(#[trigger] a[i]) == ascii_lower(b[i])
}

fn lower(c: char) -> (r: char)
    ensures
        r == ascii_lower(c),
{
    if c >= 'A' && c <= 'Z' {
        let v = (c as u32) + 32;
        assert(v < 128);
        (v as u8) as char
    } else {
        c
    }
}

/// ASCII case-insensitive equality.
pub fn eq_ignore_ascii_case(a: &str, b: &str) -> (r: bool)
    ensures
        r == eq_ignore_ascii_case_spec(a@, b@),
{
    let x = crate::text::chars_of(a);
    let y = crate::text::chars_of(b);
    if x.len() != y.len() {
        return false;
    }
    let mut i: usize = 0;
    while i < x.len()
        invariant
            x@ == a@,
            y@ == b@,
            x@.len() == y@.len(),
            i <= x@.len(),
            forall|j: int| 0 <= j < i ==> ascii_lower(#[trigger] x@[j]) == ascii_lower(y@[j]),
        decreases x.len() - i,
    {
        if lower(x[i]) != lower(y[i]) {
            return false;
        }
        i = i + 1;
    }
    true
}

/// The kind of agent source a managed agent can resolve.
#[derive(Clone, Copy, Debug, PartialEq, Eq)]
pub enum AgentAdapterSourceType {
    Agent,
    AgentStep,
}

/// Whether the in-process managed agent may resolve a request: the run
/// opted in with a round budget, the source is an agent, and the
/// configured provider is Anthropic (any case).
pub fn managed_agent_attempt(max_rounds: Option<u32>, source: SourceKind, provider: Option<&str>) -> (r: Option<
    (u32, AgentAdapterSourceType),
>)
    ensures
        match (max_rounds, source, provider) {
            (Some(m), SourceKind::Agent, Some(p)) => if eq_ignore_ascii_case_spec(p@, "anthropic"@) {
                r == Some((m, AgentAdapterSourceType::Agent))
            } else {
                r is None
            },
            (Some(m), SourceKind::AgentStep, Some(p)) => if eq_ignore_ascii_case_spec(p@, "anthropic"@) {
                r == Some((m, AgentAdapterSourceType::AgentStep))
            } else {
                r is None
            },
            _ => r is None,
        },
{
    let rounds = match max_rounds {
        Some(m) => m,
        None => {
            return None;
        },
    };
    let kind = match source {
        SourceKind::Agent => AgentAdapterSourceType::Agent,
        SourceKind::AgentStep => AgentAdapterSourceType::AgentStep,
        _ => {
            return None;
        },
    };
    match provider {
        Some(p) => {
            if eq_ignore_ascii_case(p, "anthropic") {
                Some((rounds, kind))
            } else {
                None
            }
        },
        None => None,
    }
}

/// What identifies a fresh agent run: the schema, the skill, the runner,
/// the request and its inputs, with keys in the order a JSON writer keeps
/// them.
pub open spec fn agent_identity_model(
    skill: Seq<char>,
    runner: Seq<char>,
    request_id: Seq<char>,
    inputs: Seq<(Seq<char>, JsonModel)>,
) -> JsonModel {
    JsonModel::Object(
        Seq::empty().push(("inputs"@, JsonModel::Object(inputs))).push(
            ("request_id"@, JsonModel::Str(request_id)),
        ).push(("runner"@, JsonModel::Str(runner))).push(
            ("schema"@, JsonModel::Str("runx.agent_run_identity.v1"@)),
        ).push(("skill"@, JsonModel::Str(skill))),
    )
}

/// The `sha256:` digest of the identity's compact JSON text; none when the
/// inputs hold a float, whose digits are the JSON writer's own.
pub open spec fn identity_digest_spec(
    skill: Seq<char>,
    runner: Seq<char>,
    request_id: Seq<char>,
    inputs: Seq<(Seq<char>, JsonModel)>,
) -> Option<Seq<char>> {
    match json_text(agent_identity_model(skill, runner, request_id, inputs)) {
        Some(t) => Some("sha256:"@ + hex_lower(sha256_digest(vstd::utf8::encode_utf8(t)))),
        None => None,
    }
}

fn push_identity_entry(out: &mut String, first: bool, key: &str, value: &str)
    ensures
        final(out)@ == if first {
            old(out)@ + json_string_literal(key@) + ":"@ + value@
        } else {
            old(out)@ + ","@ + json_string_literal(key@) + ":"@ + value@
        },
{
    if !first {
        out.append(",");
    }
    out.append(json_quote(key).as_str());
    out.append(":");
    out.append(value);
}

/// The digest of a fresh agent run's identity.
pub fn agent_run_identity_digest(skill: &str, runner: &str, request_id: &str, inputs: &JsonObject) -> (r:
    Option<String>)
    ensures
        opt_view(r) == identity_digest_spec(skill@, runner@, request_id@, inputs@),
{
    let value = JsonValue::Object(clone_object(inputs));
    let inputs_text = match json_text_of(&value) {
        Some(t) => t,
        None => {
            proof {
                lemma_entries_text_push(Seq::empty(), "inputs"@, JsonModel::Object(inputs@));
                let e1 = Seq::<(Seq<char>, JsonModel)>::empty().push(("inputs"@, JsonModel::Object(inputs@)));
                let e2 = e1.push(("request_id"@, JsonModel::Str(request_id@)));
                let e3 = e2.push(("runner"@, JsonModel::Str(runner@)));
                let e4 = e3.push(("schema"@, JsonModel::Str("runx.agent_run_identity.v1"@)));
                lemma_entries_text_push(e1, "request_id"@, JsonModel::Str(request_id@));
                lemma_entries_text_push(e2, "runner"@, JsonModel::Str(runner@));
                lemma_entries_text_push(e3, "schema"@, JsonModel::Str("runx.agent_run_identity.v1"@));
                lemma_entries_text_push(e4, "skill"@, JsonModel::Str(skill@));
            }
            return None;
        },
    };
    let req = json_quote(request_id);
    let run = json_quote(runner);
    let schema = json_quote("runx.agent_run_identity.v1");
    let sk = json_quote(skill);
    let mut body = String::new();
    push_identity_entry(&mut body, true, "inputs", inputs_text.as_str());
    push_identity_entry(&mut body, false, "request_id", req.as_str());
    push_identity_entry(&mut body, false, "runner", run.as_str());
    push_identity_entry(&mut body, false, "schema", schema.as_str());
    push_identity_entry(&mut body, false, "skill", sk.as_str());
    let mut text = "{".to_owned();
    text.append(body.as_str());
    text.append("}");
    proof {
        let e0 = Seq::<(Seq<char>, JsonModel)>::empty();
        let e1 = e0.push(("inputs"@, JsonModel::Object(inputs@)));
        let e2 = e1.push(("request_id"@, JsonModel::Str(request_id@)));
        let e3 = e2.push(("runner"@, JsonModel::Str(runner@)));
        let e4 = e3.push(("schema"@, JsonModel::Str("runx.agent_run_identity.v1"@)));
        assert(json_text(JsonModel::Object(inputs@)) == Some(inputs_text@));
        lemma_entries_text_push(e0, "inputs"@, JsonModel::Object(inputs@));
        lemma_entries_text_push(e1, "request_id"@, JsonModel::Str(request_id@));
        lemma_entries_text_push(e2, "runner"@, JsonModel::Str(runner@));
        lemma_entries_text_push(e3, "schema"@, JsonModel::Str("runx.agent_run_identity.v1"@));
        lemma_entries_text_push(e4, "skill"@, JsonModel::Str(skill@));
        assert(entries_text(e0) == Some(Seq::<char>::empty()));
        assert(Seq::<char>::empty() + json_string_literal("inputs"@) + ":"@ + inputs_text@ =~= json_string_literal(
            "inputs"@,
        ) + ":"@ + inputs_text@);
        assert(json_text(agent_identity_model(skill@, runner@, request_id@, inputs@)) == Some(text@));
    }
    Some(sha256_prefixed(text.as_str().as_bytes()))
}

/// The run an agent request runs in: a continuation's own id; an error
/// when only one of run id and answers is given; else the id derived from
/// the run identity, whose skill is the manifest's skill or else the
/// runner's name. `None` when the identity cannot be written (its inputs
/// hold a float).
pub fn agent_run_id(
    run_id: Option<&str>,
    has_answers: bool,
    manifest_skill: Option<&str>,
    runner: &str,
    request_id: &str,
    request_segment: &str,
    inputs: &JsonObject,
) -> (r: Option<Result<String, String>>)
    ensures
        match (run_id, has_answers) {
            (Some(id), true) => r matches Some(Ok(x)) && x@ == id@,
            (None, false) => match identity_digest_spec(
                match manifest_skill {
                    Some(s) => s@,
                    None => runner@,
                },
                runner@,
                request_id@,
                inputs@,
            ) {
                None => r is None,
                Some(d) => match derived_run_id_spec(request_segment@, d) {
                    Ok(x) => r matches Some(Ok(y)) && y@ == x,
                    Err(m) => r matches Some(Err(y)) && y@ == m,
                },
            },
            _ => r matches Some(Err(m)) && m@ == "skill continuation requires both run_id and answers"@,
        },
{
    match continuation_run_id(run_id, has_answers) {
        Err(e) => Some(Err(e)),
        Ok(Some(id)) => Some(Ok(id)),
        Ok(None) => {
            let skill = match manifest_skill {
                Some(s) => s,
                None => runner,
            };
            match agent_run_identity_digest(skill, runner, request_id, inputs) {
                None => None,
                Some(d) => Some(derived_agent_run_id(request_segment, d.as_str())),
            }
        },
    }
}


/// The checkpoint a paused agent run leaves under the receipt directory, so
/// that the host can answer the request and resume the run.
#[derive(Debug, PartialEq, Eq)]
pub struct PausedAgentCheckpoint {
    pub id: String,
    pub name: String,
    pub kind: String,
    pub started_at: Option<String>,
    pub resume_skill_ref: Option<String>,
    pub selected_runner: Option<String>,
    pub credential_profile: Option<String>,
    pub package_digest: Option<String>,
    pub execution_closure_digest: Option<String>,
    pub step_ids: Vec<String>,
    pub step_labels: Vec<String>,
}

fn copy_opt(o: Option<&str>) -> (r: Option<String>)
    ensures
        opt_view(r) == match o {
            Some(s) => Some(s@),
            None => None,
        },
{
    match o {
        Some(s) => Some(s.to_owned()),
        None => None,
    }
}

/// The checkpoint of an agent run that pauses for its host: it is the run
/// itself (`id` the run id, kind `agent`), named by the manifest's skill or
/// else the runner, with one step: the agent request, labelled by the
/// runner. `started_at` is the time the caller read.
pub fn paused_agent_checkpoint(
    run_id: &str,
    request_id: &str,
    manifest_skill: Option<&str>,
    runner: &str,
    started_at: &str,
    skill_ref: &str,
    credential_profile: Option<&str>,
    package_digest: &str,
    execution_closure_digest: Option<&str>,
) -> (r: PausedAgentCheckpoint)
    ensures
        r.id@ == run_id@,
        r.name@ == match manifest_skill {
            Some(s) => s@,
            None => runner@,
        },
        r.kind@ == "agent"@,
        opt_view(r.started_at) == Some(started_at@),
        opt_view(r.resume_skill_ref) == Some(skill_ref@),
        opt_view(r.selected_runner) == Some(runner@),
        opt_view(r.credential_profile) == match credential_profile {
            Some(p) => Some(p@),
            None => None,
        },
        opt_view(r.package_digest) == Some(package_digest@),
        opt_view(r.execution_closure_digest) == match execution_closure_digest {
            Some(d) => Some(d@),
            None => None,
        },
        r.step_ids@.len() == 1 && r.step_ids@[0]@ == request_id@,
        r.step_labels@.len() == 1 && r.step_labels@[0]@ == runner@,
{
    let name = match manifest_skill {
        Some(s) => s.to_owned(),
        None => runner.to_owned(),
    };
    let mut step_ids: Vec<String> = Vec::new();
    step_ids.push(request_id.to_owned());
    let mut step_labels: Vec<String> = Vec::new();
    step_labels.push(runner.to_owned());
    PausedAgentCheckpoint {
        id: run_id.to_owned(),
        name,
        kind: "agent".to_owned(),
        started_at: Some(started_at.to_owned()),
        resume_skill_ref: Some(skill_ref.to_owned()),
        selected_runner: Some(runner.to_owned()),
        credential_profile: copy_opt(credential_profile),
        package_digest: Some(package_digest.to_owned()),
        execution_closure_digest: copy_opt(execution_closure_digest),
        step_ids,
        step_labels,
    }
}

} // verus!
