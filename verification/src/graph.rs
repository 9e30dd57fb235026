//! Graph execution decisions: field references into prior runs, `when`
//! selection, guards, retry and step budgets, and the planning cursor.
use vstd::prelude::*;

use crate::json::{json_eq, lookup, JsonModel, JsonObject, JsonValue};
use crate::string_set::StringSet;
use crate::text::{split_on, split_spec, str_eq, string_views};

verus! {

/// A `when` condition: the field it reads and what it compares with.
#[derive(Debug)]
pub struct WhenCondition {
    pub field: String,
    pub equals: Option<JsonValue>,
    pub not_equals: Option<JsonValue>,
}

/// A step of an execution graph, as the decisions here read it.
#[derive(Debug)]
pub struct GraphStep {
    pub id: String,
    pub when: Option<WhenCondition>,
    pub retry_max_attempts: Option<u64>,
    pub fanout_group: Option<String>,
}

/// A guard on a step.
#[derive(Debug)]
pub struct GuardGate {
    pub step: String,
    pub field: String,
    pub equals: Option<JsonValue>,
    pub not_equals: Option<JsonValue>,
}

/// The steps of a graph and its guards.
#[derive(Debug)]
pub struct ExecutionGraph {
    pub steps: Vec<GraphStep>,
    pub guards: Option<Vec<GuardGate>>,
}

/// A recorded run of a step and its outputs.
#[derive(Debug)]
pub struct StepRun {
    pub step_id: String,
    pub outputs: JsonObject,
}

// ---------------------------------------------------------------------------
// Field references
// ---------------------------------------------------------------------------
/// The index of the last run of `step_id` among the first `n` runs.
pub open spec fn last_run(runs: Seq<StepRun>, step_id: Seq<char>, n: int) -> Option<int>
    decreases n,
{
    if n <= 0 || n > runs.len() {
        None
    } else if runs[n - 1].step_id@ == step_id {
        Some(n - 1)
    } else {
        last_run(runs, step_id, n - 1)
    }
}

/// Descends into nested objects along `path`.
pub open spec fn descend(v: JsonModel, path: Seq<Seq<char>>) -> Option<JsonModel>
    decreases path.len(),
{
    if path.len() == 0 {
        Some(v)
    } else {
        match v {
            JsonModel::Object(e) => match lookup(e, path[0]) {
                Some(x) => descend(x, path.drop_first()),
                None => None,
            },
            _ => None,
        }
    }
}

/// The value a `step.output.path` reference reads: from the last run of the
/// step, an output other than the raw `skill_claim`, then nested fields.
pub open spec fn field_value(field: Seq<char>, runs: Seq<StepRun>) -> Option<JsonModel> {
    let segs = split_spec(field, '.');
    match last_run(runs, segs[0], runs.len() as int) {
        None => None,
        Some(i) => if segs.len() < 2 || segs[1] == "skill_claim"@ {
            None
        } else {
            match lookup(runs[i].outputs@, segs[1]) {
                None => None,
                Some(v) => descend(v, segs.subrange(2, segs.len() as int)),
            }
        },
    }
}

/// The value a field reference reads from the runs so far.
pub fn transition_field_value<'a>(field: &str, runs: &'a [StepRun]) -> (r: Option<&'a JsonValue>)
    ensures
        match field_value(field@, runs@) {
            Some(v) => r matches Some(x) && x@ == v,
            None => r is None,
        },
{
    let segs = split_on(field, '.');
    let ghost sv = string_views(segs@);
    let mut n: usize = runs.len();
    while n > 0
        invariant
            n <= runs@.len(),
            sv == string_views(segs@),
            segs@.len() >= 1,
            last_run(runs@, sv[0], runs@.len() as int) == last_run(runs@, sv[0], n as int),
        ensures
            n > 0 ==> runs@[n - 1].step_id@ == sv[0],
            last_run(runs@, sv[0], runs@.len() as int) == last_run(runs@, sv[0], n as int),
        decreases n,
    {
        if str_eq(runs[n - 1].step_id.as_str(), segs[0].as_str()) {
            break;
        }
        n = n - 1;
    }
    if n == 0 {
        return None;
    }
    let run = &runs[n - 1];
    assert(last_run(runs@, sv[0], runs@.len() as int) == Some(n - 1));
    if segs.len() < 2 || str_eq(segs[1].as_str(), "skill_claim") {
        return None;
    }
    let mut value = match run.outputs.get(segs[1].as_str()) {
        Some(v) => v,
        None => {
            return None;
        },
    };
    let mut k: usize = 2;
    let ghost first = value@;
    assert(field_value(field@, runs@) == descend(first, sv.subrange(2, sv.len() as int)));
    assert(sv.subrange(2, sv.len() as int) =~= sv.subrange(k as int, sv.len() as int));
    while k < segs.len()
        invariant
            2 <= k <= segs@.len(),
            sv == string_views(segs@),
            field_value(field@, runs@) == descend(first, sv.subrange(2, sv.len() as int)),
            descend(first, sv.subrange(2, sv.len() as int)) == descend(
                value@,
                sv.subrange(k as int, sv.len() as int),
            ),
        decreases segs.len() - k,
    {
        let ghost rest = sv.subrange(k as int, sv.len() as int);
        assert(rest.drop_first() =~= sv.subrange(k + 1, sv.len() as int));
        assert(rest.len() > 0 && rest[0] == sv[k as int]);
        let object = match value.as_object() {
            Some(o) => o,
            None => {
                return None;
            },
        };
        value = match object.get(segs[k].as_str()) {
            Some(v) => v,
            None => {
                return None;
            },
        };
        k = k + 1;
    }
    assert(sv.subrange(k as int, sv.len() as int) =~= Seq::<Seq<char>>::empty());
    Some(value)
}

// ---------------------------------------------------------------------------
// When selection
// ---------------------------------------------------------------------------
pub open spec fn opt_model(v: Option<JsonValue>) -> Option<JsonModel> {
    match v {
        Some(x) => Some(x@),
        None => None,
    }
}

/// A resolved condition value satisfies the comparison: `equals` wins over
/// `not_equals`, and a condition without either is satisfied.
pub open spec fn satisfied(v: JsonModel, equals: Option<JsonModel>, not_equals: Option<JsonModel>) -> bool {
    match (equals, not_equals) {
        (Some(e), _) => v == e,
        (None, Some(d)) => v != d,
        _ => true,
    }
}

/// One step's effect on the selected-out set.
pub open spec fn pass_step(step: GraphStep, runs: Seq<StepRun>, skipped: Set<Seq<char>>) -> Set<
    Seq<char>,
> {
    match step.when {
        None => skipped,
        Some(w) => if skipped.contains(split_spec(w.field@, '.')[0]) {
            skipped.insert(step.id@)
        } else {
            match field_value(w.field@, runs) {
                None => skipped,
                Some(v) => if !satisfied(v, opt_model(w.equals), opt_model(w.not_equals)) {
                    skipped.insert(step.id@)
                } else {
                    skipped
                },
            }
        },
    }
}

/// One pass over the steps in order.
pub open spec fn skip_pass(steps: Seq<GraphStep>, runs: Seq<StepRun>, skipped: Set<Seq<char>>) -> Set<
    Seq<char>,
>
    decreases steps.len(),
{
    if steps.len() == 0 {
        skipped
    } else {
        pass_step(steps.last(), runs, skip_pass(steps.drop_last(), runs, skipped))
    }
}

/// `n` passes.
pub open spec fn skip_passes(
    steps: Seq<GraphStep>,
    runs: Seq<StepRun>,
    skipped: Set<Seq<char>>,
    n: nat,
) -> Set<Seq<char>>
    decreases n,
{
    if n == 0 {
        skipped
    } else {
        skip_passes(steps, runs, skip_pass(steps, runs, skipped), (n - 1) as nat)
    }
}

/// The number of steps whose id is not in `s`.
pub open spec fn unselected(steps: Seq<GraphStep>, s: Set<Seq<char>>) -> nat
    decreases steps.len(),
{
    if steps.len() == 0 {
        0
    } else {
        unselected(steps.drop_last(), s) + if s.contains(steps.last().id@) {
            0nat
        } else {
            1nat
        }
    }
}

proof fn lemma_unselected_mono(steps: Seq<GraphStep>, a: Set<Seq<char>>, b: Set<Seq<char>>)
    requires
        a.subset_of(b),
    ensures
        unselected(steps, b) <= unselected(steps, a),
        (exists|i: int| 0 <= i < steps.len() && b.contains(#[trigger] steps[i].id@) && !a.contains(
            steps[i].id@,
        )) ==> unselected(steps, b) < unselected(steps, a),
    decreases steps.len(),
{
    if steps.len() > 0 {
        lemma_unselected_mono(steps.drop_last(), a, b);
        if exists|i: int|
            0 <= i < steps.len() && b.contains(#[trigger] steps[i].id@) && !a.contains(
                steps[i].id@,
            ) {
            let i = choose|i: int|
                0 <= i < steps.len() && b.contains(#[trigger] steps[i].id@) && !a.contains(
                    steps[i].id@,
                );
            if i < steps.len() - 1 {
                assert(steps.drop_last()[i] == steps[i]);
            }
        }
    }
}

fn opt_clone_eq(v: &JsonValue, other: &Option<JsonValue>) -> (r: bool)
    ensures
        r == (other matches Some(o) && v@ == o@),
{
    match other {
        Some(o) => json_eq(v, o),
        None => false,
    }
}

/// Applies one step's `when` to the selected-out set, reporting whether the
/// set grew.
fn apply_when(step: &GraphStep, runs: &[StepRun], skipped: &mut StringSet) -> (changed: bool)
    ensures
        final(skipped)@ == pass_step(*step, runs@, old(skipped)@),
        changed ==> !old(skipped)@.contains(step.id@) && final(skipped)@.contains(step.id@),
        !changed ==> final(skipped)@ == old(skipped)@,
        old(skipped)@.subset_of(final(skipped)@),
{
    let when = match &step.when {
        None => {
            return false;
        },
        Some(w) => w,
    };
    let parts = split_on(when.field.as_str(), '.');
    let select = if skipped.contains(parts[0].as_str()) {
        true
    } else {
        match transition_field_value(when.field.as_str(), runs) {
            None => false,
            Some(value) => {
                let ok = match &when.equals {
                    Some(_) => opt_clone_eq(value, &when.equals),
                    None => match &when.not_equals {
                        Some(_) => !opt_clone_eq(value, &when.not_equals),
                        None => true,
                    },
                };
                !ok
            },
        }
    };
    if select {
        let present = skipped.contains(step.id.as_str());
        skipped.insert(step.id.clone());
        proof {
            if present {
                assert(skipped@ =~= old(skipped)@);
            } else {
                assert(!old(skipped)@.contains(step.id@));
                assert(skipped@.contains(step.id@));
            }
        }
        !present
    } else {
        false
    }
}

/// One pass over the graph's steps in order.
fn run_pass(steps: &Vec<GraphStep>, runs: &[StepRun], skipped: &mut StringSet) -> (changed: bool)
    ensures
        final(skipped)@ == skip_pass(steps@, runs@, old(skipped)@),
        old(skipped)@.subset_of(final(skipped)@),
        changed ==> exists|x: Seq<char>| final(skipped)@.contains(x) && !old(skipped)@.contains(x),
        !changed ==> final(skipped)@ == old(skipped)@,
{
    let mut changed = false;
    let mut i: usize = 0;
    while i < steps.len()
        invariant
            i <= steps@.len(),
            skipped@ == skip_pass(steps@.subrange(0, i as int), runs@, old(skipped)@),
            old(skipped)@.subset_of(skipped@),
            changed ==> exists|x: Seq<char>| skipped@.contains(x) && !old(skipped)@.contains(x),
            !changed ==> skipped@ == old(skipped)@,
        decreases steps.len() - i,
    {
        assert(steps@.subrange(0, i + 1).drop_last() =~= steps@.subrange(0, i as int));
        let ghost before = skipped@;
        let step_changed = apply_when(&steps[i], runs, skipped);
        proof {
            if step_changed {
                assert(!old(skipped)@.contains(steps@[i as int].id@));
            } else if changed {
                let x = choose|x: Seq<char>| before.contains(x) && !old(skipped)@.contains(x);
                assert(skipped@.contains(x));
            }
        }
        changed = changed || step_changed;
        i = i + 1;
    }
    assert(steps@.subrange(0, steps@.len() as int) =~= steps@);
    changed
}

proof fn lemma_pass_adds_step_ids(
    steps: Seq<GraphStep>,
    runs: Seq<StepRun>,
    s: Set<Seq<char>>,
    x: Seq<char>,
)
    requires
        skip_pass(steps, runs, s).contains(x),
        !s.contains(x),
    ensures
        exists|i: int| 0 <= i < steps.len() && #[trigger] steps[i].id@ == x,
    decreases steps.len(),
{
    if steps.len() > 0 {
        let prior = skip_pass(steps.drop_last(), runs, s);
        if prior.contains(x) {
            lemma_pass_adds_step_ids(steps.drop_last(), runs, s, x);
            let i = choose|i: int| 0 <= i < steps.drop_last().len() && #[trigger] steps.drop_last()[i].id@ == x;
            assert(steps[i].id@ == x);
        } else {
            assert(steps[steps.len() - 1].id@ == x);
        }
    }
}

/// The steps a `when` selects out, given the runs so far: passes over the
/// steps repeat until nothing changes. A step whose predicate source is
/// selected out is selected out too, so selection reaches every descendant.
pub fn when_skipped_steps(graph: &ExecutionGraph, runs: &[StepRun], already_skipped: &StringSet) -> (r:
    StringSet)
    ensures
        exists|n: nat| r@ == skip_passes(graph.steps@, runs@, already_skipped@, n),
        skip_pass(graph.steps@, runs@, r@) == r@,
        already_skipped@.subset_of(r@),
{
    let mut skipped = StringSet::new();
    skipped.extend(already_skipped);
    assert(skipped@ =~= already_skipped@);
    let ghost mut n: nat = 0;
    loop
        invariant
            skipped@ == skip_passes(graph.steps@, runs@, already_skipped@, n),
            already_skipped@.subset_of(skipped@),
        decreases unselected(graph.steps@, skipped@),
    {
        let ghost before = skipped@;
        let changed = run_pass(&graph.steps, runs, &mut skipped);
        proof {
            lemma_passes_step(graph.steps@, runs@, already_skipped@, n);
            n = n + 1;
            lemma_unselected_mono(graph.steps@, before, skipped@);
            if changed {
                let x = choose|x: Seq<char>| skipped@.contains(x) && !before.contains(x);
                lemma_pass_adds_step_ids(graph.steps@, runs@, before, x);
            }
        }
        if !changed {
            proof {
                assert(skip_pass(graph.steps@, runs@, before) == before);
            }
            return skipped;
        }
    }
}

proof fn lemma_passes_step(
    steps: Seq<GraphStep>,
    runs: Seq<StepRun>,
    s: Set<Seq<char>>,
    n: nat,
)
    ensures
        skip_passes(steps, runs, s, n + 1) == skip_pass(steps, runs, skip_passes(steps, runs, s, n)),
    decreases n,
{
    if n > 0 {
        let t = skip_pass(steps, runs, s);
        lemma_passes_step(steps, runs, t, (n - 1) as nat);
        assert(skip_passes(steps, runs, s, n) == skip_passes(steps, runs, t, (n - 1) as nat));
        assert(skip_passes(steps, runs, s, n + 1) == skip_passes(steps, runs, t, n));
        assert(((n - 1) as nat) + 1 == n);
    } else {
        assert(skip_passes(steps, runs, s, 1) == skip_passes(steps, runs, skip_pass(steps, runs, s), 0));
    }
}

proof fn lemma_pass_superset(steps: Seq<GraphStep>, runs: Seq<StepRun>, s: Set<Seq<char>>)
    ensures
        s.subset_of(skip_pass(steps, runs, s)),
    decreases steps.len(),
{
    if steps.len() > 0 {
        lemma_pass_superset(steps.drop_last(), runs, s);
    }
}

proof fn lemma_pass_selects(steps: Seq<GraphStep>, runs: Seq<StepRun>, s: Set<Seq<char>>, i: int)
    requires
        0 <= i < steps.len(),
        steps[i].when is Some,
        s.contains(split_spec(steps[i].when->0.field@, '.')[0]),
    ensures
        skip_pass(steps, runs, s).contains(steps[i].id@),
    decreases steps.len(),
{
    let prior = skip_pass(steps.drop_last(), runs, s);
    lemma_pass_superset(steps.drop_last(), runs, s);
    if i < steps.len() - 1 {
        assert(steps.drop_last()[i] == steps[i]);
        lemma_pass_selects(steps.drop_last(), runs, s, i);
    }
}

/// Selection reaches descendants: in the selected-out set that
/// `when_skipped_steps` returns, every step whose `when` reads from a
/// selected-out step is itself selected out.
pub proof fn lemma_selection_propagates(
    steps: Seq<GraphStep>,
    runs: Seq<StepRun>,
    selected: Set<Seq<char>>,
    i: int,
)
    requires
        skip_pass(steps, runs, selected) == selected,
        0 <= i < steps.len(),
        steps[i].when is Some,
        selected.contains(split_spec(steps[i].when->0.field@, '.')[0]),
    ensures
        selected.contains(steps[i].id@),
{
    lemma_pass_selects(steps, runs, selected, i);
}

// ---------------------------------------------------------------------------
// Guards and budgets
// ---------------------------------------------------------------------------
/// Whether another attempt is allowed: attempts are bounded by the step's
/// retry policy (one attempt without one, and at most `u32::MAX`).
pub fn retry_budget_remaining(step: &GraphStep, attempt: u32) -> (r: bool)
    ensures
        r == (attempt < match step.retry_max_attempts {
            Some(m) => if m <= u32::MAX {
                m as int
            } else {
                u32::MAX as int
            },
            None => 1,
        }),
{
    let max_attempts: u32 = match step.retry_max_attempts {
        Some(m) => if m <= 0xffff_ffff {
            m as u32
        } else {
            u32::MAX
        },
        None => 1,
    };
    attempt < max_attempts
}

/// Whether a run has added as many steps as it may.
pub fn reached_step_limit(initial: usize, current: usize, max_new_steps: Option<usize>) -> (r: bool)
    ensures
        r == (max_new_steps matches Some(m) && (if current >= initial {
            current - initial
        } else {
            0
        }) >= m),
{
    match max_new_steps {
        Some(max) => current.saturating_sub(initial) >= max,
        None => false,
    }
}

/// Why a guard blocks a step.
#[derive(Debug, PartialEq)]
pub enum GuardFailure {
    /// The guarded field has no value yet.
    Unresolved { step_id: String, field: String },
    /// The field differs from the value it must equal.
    Expected { step_id: String, field: String, expected: JsonValue },
    /// The field equals the value it must not.
    MustNotEqual { step_id: String, field: String, disallowed: JsonValue },
    /// The guard compares with nothing.
    NoComparison { step_id: String, field: String },
}

/// What a guard concludes from the value of its field.
pub open spec fn guard_blocks(gate: GuardGate, value: Option<JsonModel>) -> bool {
    match value {
        None => true,
        Some(v) => (gate.equals matches Some(e) && v != e@) || (gate.not_equals matches Some(d)
            && v == d@) || (gate.equals is None && gate.not_equals is None),
    }
}

/// The guards of `step`, checked in order; the first that blocks it is
/// reported.
pub fn enforce_guards(graph: &ExecutionGraph, step: &GraphStep, runs: &[StepRun]) -> (r: Result<
    (),
    GuardFailure,
>)
    ensures
        r is Ok <==> match graph.guards {
            None => true,
            Some(gs) => forall|i: int|
                0 <= i < gs@.len() && #[trigger] gs@[i].step@ == step.id@ ==> !guard_blocks(
                    gs@[i],
                    field_value(gs@[i].field@, runs@),
                ),
        },
{
    let guards = match &graph.guards {
        None => {
            return Ok(());
        },
        Some(g) => g,
    };
    let mut i: usize = 0;
    while i < guards.len()
        invariant
            i <= guards@.len(),
            graph.guards == Some(*guards),
            forall|j: int|
                0 <= j < i && #[trigger] guards@[j].step@ == step.id@ ==> !guard_blocks(
                    guards@[j],
                    field_value(guards@[j].field@, runs@),
                ),
        decreases guards.len() - i,
    {
        let gate = &guards[i];
        if str_eq(gate.step.as_str(), step.id.as_str()) {
            let value = match transition_field_value(gate.field.as_str(), runs) {
                None => {
                    return Err(
                        GuardFailure::Unresolved {
                            step_id: step.id.clone(),
                            field: gate.field.clone(),
                        },
                    );
                },
                Some(v) => v,
            };
            match &gate.equals {
                Some(expected) => {
                    if !json_eq(value, expected) {
                        return Err(
                            GuardFailure::Expected {
                                step_id: step.id.clone(),
                                field: gate.field.clone(),
                                expected: crate::json::clone_value(expected),
                            },
                        );
                    }
                },
                None => {},
            }
            match &gate.not_equals {
                Some(disallowed) => {
                    if json_eq(value, disallowed) {
                        return Err(
                            GuardFailure::MustNotEqual {
                                step_id: step.id.clone(),
                                field: gate.field.clone(),
                                disallowed: crate::json::clone_value(disallowed),
                            },
                        );
                    }
                },
                None => {},
            }
            if gate.equals.is_none() && gate.not_equals.is_none() {
                return Err(
                    GuardFailure::NoComparison { step_id: step.id.clone(), field: gate.field.clone() },
                );
            }
        }
        i = i + 1;
    }
    Ok(())
}

// ---------------------------------------------------------------------------
// Planning cursor
// ---------------------------------------------------------------------------
/// The status of a step in a graph run.
#[derive(Clone, Copy, Debug, PartialEq, Eq)]
pub enum GraphStepStatus {
    Pending,
    Running,
    Succeeded,
    Failed,
    Skipped,
}

/// A step's recorded state.
#[derive(Debug)]
pub struct StepState {
    pub step_id: String,
    pub status: GraphStepStatus,
}

/// A fan-out group's receipt decision at its sync point.
#[derive(Debug)]
pub struct SyncPoint {
    pub group_id: String,
    pub proceed: bool,
}

/// Whether a group has a sync point that proceeds.
pub open spec fn group_proceeds(sync: Seq<SyncPoint>, group: Seq<char>) -> bool {
    exists|i: int| 0 <= i < sync.len() && #[trigger] sync[i].group_id@ == group && sync[i].proceed
}

/// Whether the step at `i` is a settled prefix step: succeeded or
/// skipped, the graph's step at that position, and, in a fan-out group,
/// past its sync point.
pub open spec fn settled(
    steps: Seq<GraphStep>,
    states: Seq<StepState>,
    sync: Seq<SyncPoint>,
    i: int,
) -> bool {
    &&& 0 <= i < states.len()
    &&& (states[i].status == GraphStepStatus::Succeeded || states[i].status
        == GraphStepStatus::Skipped)
    &&& i < steps.len()
    &&& steps[i].id@ == states[i].step_id@
    &&& match steps[i].fanout_group {
        Some(g) => group_proceeds(sync, g@),
        None => true,
    }
}

fn proceeds(sync: &Vec<SyncPoint>, group: &str) -> (r: bool)
    ensures
        r == group_proceeds(sync@, group@),
{
    let mut i: usize = 0;
    while i < sync.len()
        invariant
            i <= sync@.len(),
            forall|j: int| 0 <= j < i ==> !(#[trigger] sync@[j].group_id@ == group@ && sync@[j].proceed),
        decreases sync.len() - i,
    {
        if str_eq(sync[i].group_id.as_str(), group) && sync[i].proceed {
            return true;
        }
        i = i + 1;
    }
    false
}

/// The first position from `start` (at most the number of states) whose
/// step is not settled.
pub fn terminal_prefix_cursor(
    graph: &ExecutionGraph,
    states: &Vec<StepState>,
    sync: &Vec<SyncPoint>,
    start: usize,
) -> (r: usize)
    ensures
        (if start < states@.len() {
            start as int
        } else {
            states@.len() as int
        }) <= r <= states@.len(),
        forall|i: int|
            (if start < states@.len() {
                start as int
            } else {
                states@.len() as int
            }) <= i < r ==> settled(graph.steps@, states@, sync@, i),
        r < states@.len() ==> !settled(graph.steps@, states@, sync@, r as int),
{
    let mut cursor = if start < states.len() {
        start
    } else {
        states.len()
    };
    let ghost first = cursor;
    while cursor < states.len()
        invariant
            first <= cursor <= states@.len(),
            first == (if start < states@.len() {
                start as int
            } else {
                states@.len() as int
            }),
            forall|i: int| first <= i < cursor ==> settled(graph.steps@, states@, sync@, i),
        decreases states.len() - cursor,
    {
        let state = &states[cursor];
        let done = match state.status {
            GraphStepStatus::Succeeded => true,
            GraphStepStatus::Skipped => true,
            _ => false,
        };
        if !done {
            return cursor;
        }
        if cursor >= graph.steps.len() || !str_eq(
            graph.steps[cursor].id.as_str(),
            state.step_id.as_str(),
        ) {
            return cursor;
        }
        match &graph.steps[cursor].fanout_group {
            Some(group) => {
                if !proceeds(sync, group.as_str()) {
                    return cursor;
                }
            },
            None => {},
        }
        cursor = cursor + 1;
    }
    cursor
}

/// Where planning resumes from a checkpoint; a checkpoint with a running
/// step cannot resume.
pub fn checkpoint_planning_cursor(
    graph: &ExecutionGraph,
    states: &Vec<StepState>,
    sync: &Vec<SyncPoint>,
) -> (r: Result<usize, String>)
    ensures
        r matches Err(id) ==> exists|i: int|
            0 <= i < states@.len() && #[trigger] states@[i].status == GraphStepStatus::Running
                && states@[i].step_id@ == id@ && forall|j: int|
                0 <= j < i ==> #[trigger] states@[j].status != GraphStepStatus::Running,
        r is Ok ==> forall|i: int|
            0 <= i < states@.len() ==> #[trigger] states@[i].status != GraphStepStatus::Running,
        r matches Ok(c) ==> c <= states@.len() && (forall|i: int|
            0 <= i < c ==> settled(graph.steps@, states@, sync@, i)) && (c < states@.len()
            ==> !settled(graph.steps@, states@, sync@, c as int)),
{
    let mut i: usize = 0;
    while i < states.len()
        invariant
            i <= states@.len(),
            forall|j: int| 0 <= j < i ==> #[trigger] states@[j].status != GraphStepStatus::Running,
        decreases states.len() - i,
    {
        match states[i].status {
            GraphStepStatus::Running => {
                return Err(states[i].step_id.clone());
            },
            _ => {},
        }
        i = i + 1;
    }
    Ok(terminal_prefix_cursor(graph, states, sync, 0))
}

} // verus!
