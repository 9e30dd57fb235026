//! A skill's inline harness: how each declared case's outcome is judged
//! against its expectation, how caller answers and approvals are seeded,
//! and how the cases add up to one report.
use vstd::prelude::*;

use crate::input_contract::{missing_required, missing_required_spec, DeclaredInputs};
use crate::json::{clone_object, lookup, JsonModel, JsonObject, JsonValue};
use crate::runner_selection::{first_named, has_runner, selected_runner};
use crate::text::{concat, str_eq};

verus! {

/// A harness status as the harness vocabulary names it.
pub open spec fn status_of(output: JsonModel) -> Seq<char> {
    match output {
        JsonModel::Object(o) => if lookup(o, "status"@) == Some(JsonModel::Str("needs_agent"@)) {
            "needs_agent"@
        } else {
            match lookup(o, "closure"@) {
                Some(JsonModel::Object(c)) => match lookup(c, "disposition"@) {
                    Some(JsonModel::Str(d)) => if d == "deferred"@ {
                        "needs_agent"@
                    } else if d == "blocked"@ {
                        "policy_denied"@
                    } else if d == "declined"@ || d == "failed"@ || d == "killed"@ || d == "timed_out"@
                        || d == "superseded"@ {
                        "failure"@
                    } else {
                        "sealed"@
                    },
                    _ => "sealed"@,
                },
                _ => "sealed"@,
            }
        },
        _ => "sealed"@,
    }
}

/// Maps a run's output onto the harness status vocabulary: a pending run
/// needs an agent; a terminal run follows its closure disposition.
pub fn inline_harness_actual_status(output: &JsonValue) -> (r: &'static str)
    ensures
        r@ == status_of(output@),
{
    let object = match output.as_object() {
        Some(o) => o,
        None => {
            return "sealed";
        },
    };
    match object.get("status") {
        Some(JsonValue::String(s)) => {
            if str_eq(s.as_str(), "needs_agent") {
                return "needs_agent";
            }
        },
        _ => {},
    }
    let disposition = match object.get("closure") {
        Some(JsonValue::Object(c)) => match c.get("disposition") {
            Some(JsonValue::String(d)) => d.as_str(),
            _ => {
                return "sealed";
            },
        },
        _ => {
            return "sealed";
        },
    };
    if str_eq(disposition, "deferred") {
        "needs_agent"
    } else if str_eq(disposition, "blocked") {
        "policy_denied"
    } else if str_eq(disposition, "declined") || str_eq(disposition, "failed") || str_eq(disposition, "killed")
        || str_eq(disposition, "timed_out") || str_eq(disposition, "superseded") {
        "failure"
    } else {
        "sealed"
    }
}

/// The receipt a run reported, if any.
pub fn receipt_id_from_output(output: &JsonValue) -> (r: Option<String>)
    ensures
        match output@ {
            JsonModel::Object(o) => match lookup(o, "receipt_id"@) {
                Some(JsonModel::Str(s)) => r matches Some(x) && x@ == s,
                _ => r is None,
            },
            _ => r is None,
        },
{
    match output.as_object() {
        Some(o) => match o.get("receipt_id") {
            Some(JsonValue::String(s)) => Some(s.clone()),
            _ => None,
        },
        None => None,
    }
}

/// A declared case of the harness.
#[derive(Debug)]
pub struct HarnessCase {
    pub name: String,
    pub runner: Option<String>,
    pub inputs: JsonObject,
    pub env: Vec<(String, String)>,
    pub answers: Option<JsonObject>,
    pub approvals: Option<Vec<(String, bool)>>,
    pub expect_status: Option<String>,
}

pub open spec fn status_message(name: Seq<char>, expected: Seq<char>, actual: Seq<char>) -> Seq<char> {
    name + ": expected status "@ + expected + ", got "@ + actual
}

/// The failure of a case whose run ended with status `actual`.
pub open spec fn status_error_spec(name: Seq<char>, expected: Option<String>, actual: Seq<char>) -> Option<Seq<char>> {
    match expected {
        Some(e) => if e@ == actual {
            None
        } else {
            Some(status_message(name, e@, actual))
        },
        None => None,
    }
}

/// A case with an expected status fails when the actual status differs.
pub fn inline_harness_status_error(case: &HarnessCase, actual: &str) -> (r: Option<String>)
    ensures
        match case.expect_status {
            Some(e) => if e@ == actual@ {
                r is None
            } else {
                r matches Some(m) && m@ == status_message(case.name@, e@, actual@)
            },
            None => r is None,
        },
{
    match &case.expect_status {
        Some(expected) => {
            if str_eq(expected.as_str(), actual) {
                None
            } else {
                let a = concat(case.name.as_str(), ": expected status ");
                let b = concat(a.as_str(), expected.as_str());
                let c = concat(b.as_str(), ", got ");
                Some(concat(c.as_str(), actual))
            }
        },
        None => None,
    }
}

/// Judges a case by the status its run's output maps to.
pub fn inline_harness_expectation_error(case: &HarnessCase, output: &JsonValue) -> (r: Option<String>)
    ensures
        match case.expect_status {
            Some(e) => if e@ == status_of(output@) {
                r is None
            } else {
                r matches Some(m) && m@ == status_message(case.name@, e@, status_of(output@))
            },
            None => r is None,
        },
{
    inline_harness_status_error(case, inline_harness_actual_status(output))
}

/// Judges a case whose run failed to execute: expected only when the case
/// expects `failure`.
pub fn inline_harness_execution_error(case: &HarnessCase, error: &str) -> (r: Option<String>)
    ensures
        match case.expect_status {
            Some(e) => if e@ == "failure"@ {
                r is None
            } else {
                r matches Some(m) && m@ == case.name@ + ": expected status "@ + e@ + ", execution failed: "@
                    + error@
            },
            None => r matches Some(m) && m@ == case.name@ + ": "@ + error@,
        },
{
    match &case.expect_status {
        Some(expected) => {
            if str_eq(expected.as_str(), "failure") {
                None
            } else {
                let a = concat(case.name.as_str(), ": expected status ");
                let b = concat(a.as_str(), expected.as_str());
                let c = concat(b.as_str(), ", execution failed: ");
                Some(concat(c.as_str(), error))
            }
        },
        None => {
            let a = concat(case.name.as_str(), ": ");
            Some(concat(a.as_str(), error))
        },
    }
}

/// What one case contributed to the report.
#[derive(Debug, PartialEq, Eq)]
pub struct InlineHarnessCaseOutcome {
    pub is_graph: bool,
    pub receipt_id: Option<String>,
    pub assertion_error: Option<String>,
}

/// A case that could not start.
pub fn inline_harness_case_error(case_name: &str, error: &str) -> (r: InlineHarnessCaseOutcome)
    ensures
        !r.is_graph,
        r.receipt_id is None,
        r.assertion_error matches Some(m) && m@ == case_name@ + ": "@ + error@,
{
    let a = concat(case_name, ": ");
    InlineHarnessCaseOutcome { is_graph: false, receipt_id: None, assertion_error: Some(concat(a.as_str(), error)) }
}

/// The runner a case uses, among the manifest's runners (name, default, its
/// declared inputs, and whether it is a graph), unless the case cannot start:
/// its runner is not selectable, or a required input is missing.
pub fn prepare_inline_harness_case(
    runners: &Vec<(String, bool)>,
    runner_inputs: &Vec<DeclaredInputs>,
    runner_is_graph: &Vec<bool>,
    case: &HarnessCase,
) -> (r: Result<usize, InlineHarnessCaseOutcome>)
    requires
        runner_inputs@.len() == runners@.len(),
        runner_is_graph@.len() == runners@.len(),
    ensures
        match r {
            Ok(i) => i < runners@.len() && missing_required_spec(runner_inputs@[i as int]@, case.inputs@).len()
                == 0 && (case.runner matches Some(n) ==> first_named(runners@, n@, i as int)),
            Err(o) => o.receipt_id is None && ({
                ||| (!o.is_graph && (o.assertion_error matches Some(m) && m@.len() >= case.name@.len() + 2
                    && m@.subrange(0, case.name@.len() + 2int) == case.name@ + ": "@))
                ||| exists|i: int|
                    0 <= i < runners@.len() && missing_required_spec(#[trigger] runner_inputs@[i]@, case.inputs@).len()
                        > 0 && (case.runner matches Some(n) ==> first_named(runners@, n@, i)) && o.is_graph
                        == runner_is_graph@[i] && match status_error_spec(case.name@, case.expect_status, "failure"@) {
                            Some(m) => o.assertion_error matches Some(x) && x@ == m,
                            None => o.assertion_error is None,
                        }
            }),
        },
        case.runner matches Some(n) && !has_runner(runners@, n@) ==> r is Err,
{
    let requested = match &case.runner {
        Some(n) => Some(n.as_str()),
        None => None,
    };
    let index = match selected_runner(runners, requested) {
        Ok(i) => i,
        Err(e) => {
            let o = inline_harness_case_error(case.name.as_str(), e.as_str());
            proof {
                let m = o.assertion_error->0;
                reveal_strlit(": ");
                assert(m@.subrange(0, case.name@.len() + 2int) =~= case.name@ + ": "@);
            }
            return Err(o);
        },
    };
    proof {
        assert(index < runners@.len()) by {
            if requested is None {
                if crate::runner_selection::default_count(runners@) == 0 && runners@.len() == 1 {
                } else {
                }
            }
        }
    }
    let missing = missing_required(&runner_inputs[index], &case.inputs);
    if missing.len() > 0 {
        proof {
            assert(missing@.map_values(|s: String| s@).len() == missing@.len());
        }
        return Err(
            InlineHarnessCaseOutcome {
                is_graph: runner_is_graph[index],
                receipt_id: None,
                assertion_error: inline_harness_status_error(case, "failure"),
            },
        );
    }
    proof {
        assert(missing@.map_values(|s: String| s@).len() == missing@.len());
    }
    Ok(index)
}

/// The answers seeded for a case: its caller answers, and each approval as a
/// boolean under its gate unless an answer already sits there; none when
/// nothing is seeded.
pub open spec fn seeded_map(answers: Map<Seq<char>, JsonModel>, approvals: Seq<(String, bool)>) -> Map<
    Seq<char>,
    JsonModel,
>
    decreases approvals.len(),
{
    if approvals.len() == 0 {
        answers
    } else {
        let prior = seeded_map(answers, approvals.drop_last());
        let (gate, approved) = approvals.last();
        if prior.contains_key(gate@) {
            prior
        } else {
            prior.insert(gate@, JsonModel::Bool(approved))
        }
    }
}

/// Merges a case's caller answers and approvals into one answer map keyed by
/// request id.
pub fn seeded_answers_from_caller(answers: &Option<JsonObject>, approvals: &Option<Vec<(String, bool)>>) -> (r:
    Option<JsonObject>)
    ensures
        ({
            let base = match answers {
                Some(a) => a.map(),
                None => Map::<Seq<char>, JsonModel>::empty(),
            };
            let merged = match approvals {
                Some(v) => seeded_map(base, v@),
                None => base,
            };
            if merged == Map::<Seq<char>, JsonModel>::empty() {
                r is None
            } else {
                r matches Some(o) && o.map() == merged
            }
        }),
{
    let mut merged = match answers {
        Some(a) => clone_object(a),
        None => JsonObject::new(),
    };
    if let Some(list) = approvals {
        let mut i: usize = 0;
        assert(list@.subrange(0, 0) =~= Seq::<(String, bool)>::empty());
        while i < list.len()
            invariant
                i <= list@.len(),
                approvals == Some(*list),
                merged.map() == seeded_map(
                    match answers {
                        Some(a) => a.map(),
                        None => Map::<Seq<char>, JsonModel>::empty(),
                    },
                    list@.subrange(0, i as int),
                ),
            decreases list.len() - i,
        {
            assert(list@.subrange(0, i + 1).drop_last() =~= list@.subrange(0, i as int));
            let (gate, approved) = &list[i];
            if !merged.contains_key(gate.as_str()) {
                merged.insert(gate.clone(), JsonValue::Bool(*approved));
            }
            i = i + 1;
        }
        assert(list@.subrange(0, list@.len() as int) =~= list@);
    }
    if merged.is_empty() {
        assert(merged.map() =~= Map::<Seq<char>, JsonModel>::empty());
        None
    } else {
        assert(merged.map().contains_key(merged@[0].0));
        Some(merged)
    }
}

/// The inline harness report.
#[derive(Debug, PartialEq, Eq)]
pub struct PackageHarnessReport {
    pub assertion_error_count: usize,
    pub status: String,
    pub case_count: usize,
    pub assertion_errors: Vec<String>,
    pub case_names: Vec<String>,
    pub receipt_ids: Vec<String>,
    pub graph_case_count: usize,
}

/// The errors of the outcomes, in order.
pub open spec fn outcome_errors(o: Seq<InlineHarnessCaseOutcome>) -> Seq<Seq<char>>
    decreases o.len(),
{
    if o.len() == 0 {
        Seq::empty()
    } else {
        match o.last().assertion_error {
            Some(e) => outcome_errors(o.drop_last()).push(e@),
            None => outcome_errors(o.drop_last()),
        }
    }
}

/// The receipts of the outcomes, in order.
pub open spec fn outcome_receipts(o: Seq<InlineHarnessCaseOutcome>) -> Seq<Seq<char>>
    decreases o.len(),
{
    if o.len() == 0 {
        Seq::empty()
    } else {
        match o.last().receipt_id {
            Some(e) => outcome_receipts(o.drop_last()).push(e@),
            None => outcome_receipts(o.drop_last()),
        }
    }
}

/// How many outcomes came from graph runners.
pub open spec fn graph_count(o: Seq<InlineHarnessCaseOutcome>) -> nat
    decreases o.len(),
{
    if o.len() == 0 {
        0
    } else {
        graph_count(o.drop_last()) + if o.last().is_graph {
            1nat
        } else {
            0nat
        }
    }
}

/// A harness run reports no error exactly when no case failed its
/// expectation, and never more errors than cases.
pub proof fn lemma_harness_passes_exactly_when_every_case_does(o: Seq<InlineHarnessCaseOutcome>)
    ensures
        outcome_errors(o).len() == 0 <==> forall|k: int| 0 <= k < o.len() ==> (#[trigger] o[k]).assertion_error is None,
        outcome_errors(o).len() <= o.len(),
        graph_count(o) <= o.len(),
    decreases o.len(),
{
    if o.len() > 0 {
        let d = o.drop_last();
        lemma_harness_passes_exactly_when_every_case_does(d);
        assert(o[o.len() - 1] == o.last());
        assert forall|k: int| 0 <= k < d.len() implies #[trigger] o[k] == d[k] by {}
    }
}

/// Seeding keeps every caller answer and adds, under each approval's gate
/// that has no answer, that approval as a boolean (the first approval of a
/// gate wins); nothing else is added.
pub proof fn lemma_seeded_answers_law(answers: Map<Seq<char>, JsonModel>, approvals: Seq<(String, bool)>)
    ensures
        forall|k: Seq<char>| answers.contains_key(k) ==> #[trigger] seeded_map(answers, approvals).contains_key(k)
            && seeded_map(answers, approvals)[k] == answers[k],
        forall|k: Seq<char>|
            #[trigger] seeded_map(answers, approvals).contains_key(k) <==> answers.contains_key(k) || exists|j: int|
                0 <= j < approvals.len() && (#[trigger] approvals[j]).0@ == k,
        forall|j: int|
            0 <= j < approvals.len() && !answers.contains_key((#[trigger] approvals[j]).0@) && (forall|i: int|
                0 <= i < j ==> (#[trigger] approvals[i]).0@ != approvals[j].0@) ==> seeded_map(answers, approvals)[approvals[j].0@]
                == JsonModel::Bool(approvals[j].1),
    decreases approvals.len(),
{
    if approvals.len() > 0 {
        let d = approvals.drop_last();
        let n = approvals.len() - 1;
        lemma_seeded_answers_law(answers, d);
        assert(approvals[n] == approvals.last());
        assert forall|j: int| 0 <= j < n implies #[trigger] approvals[j] == d[j] by {}
        let w = seeded_map(answers, approvals);
        let p = seeded_map(answers, d);
        assert forall|k: Seq<char>| #[trigger] w.contains_key(k) <==> answers.contains_key(k) || exists|j: int|
            0 <= j < approvals.len() && (#[trigger] approvals[j]).0@ == k by {
            if exists|j: int| 0 <= j < approvals.len() && (#[trigger] approvals[j]).0@ == k {
                let j = choose|j: int| 0 <= j < approvals.len() && (#[trigger] approvals[j]).0@ == k;
                if j < n {
                    assert(d[j].0@ == k);
                }
            }
            if p.contains_key(k) && !answers.contains_key(k) {
                let j = choose|j: int| 0 <= j < d.len() && (#[trigger] d[j]).0@ == k;
                assert(approvals[j].0@ == k);
            }
        }
        assert forall|j: int|
            0 <= j < approvals.len() && !answers.contains_key((#[trigger] approvals[j]).0@) && (forall|i: int|
                0 <= i < j ==> (#[trigger] approvals[i]).0@ != approvals[j].0@) implies w[approvals[j].0@]
            == JsonModel::Bool(approvals[j].1) by {
            if j < n {
                assert forall|i: int| 0 <= i < j implies (#[trigger] d[i]).0@ != d[j].0@ by {
                    assert(approvals[i] == d[i]);
                }
                assert(p.contains_key(d[j].0@));
            } else {
                if p.contains_key(approvals[j].0@) {
                    let i = choose|i: int| 0 <= i < d.len() && (#[trigger] d[i]).0@ == approvals[j].0@;
                    assert(approvals[i] == d[i]);
                }
            }
        }
    }
}

/// Adds the cases' outcomes up: the run passes exactly when no case failed
/// its expectation.
pub fn summarize_inline_harness(case_names: Vec<String>, outcomes: Vec<InlineHarnessCaseOutcome>) -> (r:
    PackageHarnessReport)
    requires
        case_names@.len() == outcomes@.len(),
    ensures
        r.case_count == outcomes@.len(),
        r.case_names@ == case_names@,
        crate::text::string_views(r.assertion_errors@) == outcome_errors(outcomes@),
        r.assertion_error_count == outcome_errors(outcomes@).len(),
        crate::text::string_views(r.receipt_ids@) == outcome_receipts(outcomes@),
        r.graph_case_count == graph_count(outcomes@),
        r.status@ == (if outcome_errors(outcomes@).len() == 0 {
            "passed"@
        } else {
            "failed"@
        }),
{
    let mut errors: Vec<String> = Vec::new();
    let mut receipts: Vec<String> = Vec::new();
    let mut graphs: usize = 0;
    let n = outcomes.len();
    let mut i: usize = 0;
    assert(outcomes@.subrange(0, 0) =~= Seq::<InlineHarnessCaseOutcome>::empty());
    while i < n
        invariant
            n == outcomes@.len(),
            i <= n,
            crate::text::string_views(errors@) == outcome_errors(outcomes@.subrange(0, i as int)),
            crate::text::string_views(receipts@) == outcome_receipts(outcomes@.subrange(0, i as int)),
            graphs == graph_count(outcomes@.subrange(0, i as int)),
            graphs <= i,
        decreases n - i,
    {
        assert(outcomes@.subrange(0, i + 1).drop_last() =~= outcomes@.subrange(0, i as int));
        let o = &outcomes[i];
        if o.is_graph {
            graphs = graphs + 1;
        }
        match &o.receipt_id {
            Some(id) => {
                let ghost before = crate::text::string_views(receipts@);
                receipts.push(id.clone());
                assert(crate::text::string_views(receipts@) =~= before.push(id@));
            },
            None => {},
        }
        match &o.assertion_error {
            Some(e) => {
                let ghost before = crate::text::string_views(errors@);
                errors.push(e.clone());
                assert(crate::text::string_views(errors@) =~= before.push(e@));
            },
            None => {},
        }
        i = i + 1;
    }
    assert(outcomes@.subrange(0, n as int) =~= outcomes@);
    let status = if errors.len() == 0 {
        "passed".to_owned()
    } else {
        "failed".to_owned()
    };
    proof {
        assert(crate::text::string_views(errors@).len() == errors@.len());
    }
    PackageHarnessReport {
        assertion_error_count: errors.len(),
        status,
        case_count: n,
        assertion_errors: errors,
        case_names,
        receipt_ids: receipts,
        graph_case_count: graphs,
    }
}

/// The environment a case runs with: the harness environment, overridden
/// by the case's own variables.
pub fn inline_harness_case_env(base: Vec<(String, String)>, case_env: &Vec<(String, String)>) -> (r: Vec<
    (String, String),
>)
    ensures
        forall|k: Seq<char>| #[trigger] crate::scheduler::env_lookup(r@, k) == match crate::scheduler::env_lookup(
            case_env@,
            k,
        ) {
            Some(v) => Some(v),
            None => crate::scheduler::env_lookup(base@, k),
        },
{
    let mut env = base;
    let ghost original = env@;
    let mut i: usize = case_env.len();
    while i > 0
        invariant
            i <= case_env@.len(),
            forall|k: Seq<char>| #[trigger] crate::scheduler::env_lookup(env@, k) == match crate::scheduler::env_lookup(
                case_env@.subrange(i as int, case_env@.len() as int),
                k,
            ) {
                Some(v) => Some(v),
                None => crate::scheduler::env_lookup(original, k),
            },
        decreases i,
    {
        i = i - 1;
        let ghost rest = case_env@.subrange(i + 1, case_env@.len() as int);
        let ghost cur = case_env@.subrange(i as int, case_env@.len() as int);
        assert(cur.drop_first() =~= rest);
        assert(cur[0] == case_env@[i as int]);
        crate::sandbox_env::env_set(&mut env, case_env[i].0.as_str(), case_env[i].1.clone());
    }
    assert(case_env@.subrange(0, case_env@.len() as int) =~= case_env@);
    env
}

/// How a conventional fixture replay ended: its name, receipt and whether
/// it was a graph fixture, or the error it failed with.
#[derive(Debug)]
pub enum FixtureReplay {
    Replayed { name: String, receipt_id: String, is_graph: bool },
    Failed { message: String },
}

/// Adds one replayed fixture to the report.
pub fn record_fixture_replay(report: &mut PackageHarnessReport, replay: FixtureReplay)
    requires
        old(report).case_count < usize::MAX,
        old(report).graph_case_count < usize::MAX,
    ensures
        final(report).case_count == old(report).case_count + 1,
        final(report).status == old(report).status,
        final(report).assertion_error_count == old(report).assertion_error_count,
        match replay {
            FixtureReplay::Replayed { name, receipt_id, is_graph } => {
                &&& final(report).case_names@ == old(report).case_names@.push(name)
                &&& final(report).receipt_ids@ == old(report).receipt_ids@.push(receipt_id)
                &&& final(report).graph_case_count == old(report).graph_case_count + if is_graph {
                    1int
                } else {
                    0int
                }
                &&& final(report).assertion_errors@ == old(report).assertion_errors@
            },
            FixtureReplay::Failed { message } => {
                &&& final(report).assertion_errors@ == old(report).assertion_errors@.push(message)
                &&& final(report).case_names@ == old(report).case_names@
                &&& final(report).receipt_ids@ == old(report).receipt_ids@
                &&& final(report).graph_case_count == old(report).graph_case_count
            },
        },
{
    report.case_count = report.case_count + 1;
    match replay {
        FixtureReplay::Replayed { name, receipt_id, is_graph } => {
            if is_graph {
                report.graph_case_count = report.graph_case_count + 1;
            }
            report.case_names.push(name);
            report.receipt_ids.push(receipt_id);
        },
        FixtureReplay::Failed { message } => {
            report.assertion_errors.push(message);
        },
    }
}

/// Recomputes the error count and the status from the recorded errors.
pub fn finalize_report(report: &mut PackageHarnessReport)
    ensures
        final(report).assertion_error_count == old(report).assertion_errors@.len(),
        final(report).status@ == (if old(report).assertion_errors@.len() == 0 {
            "passed"@
        } else {
            "failed"@
        }),
        final(report).assertion_errors@ == old(report).assertion_errors@,
        final(report).case_names@ == old(report).case_names@,
        final(report).receipt_ids@ == old(report).receipt_ids@,
        final(report).case_count == old(report).case_count,
        final(report).graph_case_count == old(report).graph_case_count,
{
    report.assertion_error_count = report.assertion_errors.len();
    report.status = if report.assertion_errors.len() == 0 {
        "passed".to_owned()
    } else {
        "failed".to_owned()
    };
}

} // verus!
