//! Replay obligations of harness fixtures.
//!
//! A fixture that supplies caller answers promises that each answer is
//! replayed: it must appear among the observed outputs, as an equal JSON
//! value, as an object that a typed output enriches with more fields, or
//! nested anywhere inside an output.
use vstd::prelude::*;

use crate::json::{
    clone_value, has_key, json_eq, lemma_array_decreases, lemma_lookup_at, lookup, JsonModel,
    JsonObject, JsonValue,
};
use crate::text::concat;

verus! {

/// Every field of `expected` is present in `actual` with an equal value, or,
/// where both are objects, with a value that enriches it in turn.
pub open spec fn subset_matches(expected: JsonModel, actual: JsonModel) -> bool
    decreases expected, 0int,
{
    match (expected, actual) {
        (JsonModel::Object(e), JsonModel::Object(a)) => forall|i: int|
            0 <= i < e.len() ==> has_key(a, #[trigger] e[i].0) && field_matches(
                e[i].1,
                lookup(a, e[i].0)->0,
            ),
        _ => false,
    }
}

pub open spec fn field_matches(expected: JsonModel, actual: JsonModel) -> bool
    decreases expected, 1int,
{
    if expected is Object && actual is Object {
        subset_matches(expected, actual)
    } else {
        expected == actual
    }
}

/// `expected` matches `actual` or a value nested inside it.
pub open spec fn contains_model(expected: JsonModel, actual: JsonModel) -> bool
    decreases actual,
{
    expected == actual || subset_matches(expected, actual) || match actual {
        JsonModel::Array(values) => exists|i: int|
            0 <= i < values.len() && contains_model(expected, #[trigger] values[i]),
        JsonModel::Object(entries) => exists|i: int|
            0 <= i < entries.len() && contains_model(expected, #[trigger] entries[i].1),
        _ => false,
    }
}

/// A fixture's replay obligation was not met.
#[derive(Debug, PartialEq)]
pub enum HarnessReplayError {
    /// `field` names the obligation; `expected` is the answer and `actual`
    /// the observed outputs, as an array.
    Mismatch { field: String, expected: JsonValue, actual: JsonValue },
}

/// Whether every field of `expected` is matched in `actual`.
pub fn json_subset_matches(expected: &JsonValue, actual: &JsonValue) -> (r: bool)
    ensures
        r == subset_matches(expected@, actual@),
    decreases expected,
{
    let e = match expected {
        JsonValue::Object(e) => e,
        _ => {
            return false;
        },
    };
    let a = match actual.as_object() {
        Some(a) => a,
        None => {
            return false;
        },
    };
    assert(expected@ == JsonModel::Object(e@));
    let n = e.len();
    let mut i: usize = 0;
    while i < n
        invariant
            i <= n == e@.len(),
            expected@ == JsonModel::Object(e@),
            actual@ == JsonModel::Object(a@),
            *expected == JsonValue::Object(*e),
            forall|j: int|
                0 <= j < i ==> has_key(a@, #[trigger] e@[j].0) && field_matches(
                    e@[j].1,
                    lookup(a@, e@[j].0)->0,
                ),
        decreases n - i,
    {
        let (key, expected_value) = e.entry(i);
        let ok = match a.get(key.as_str()) {
            None => false,
            Some(actual_value) => {
                if expected_value.as_object().is_some() && actual_value.as_object().is_some() {
                    json_subset_matches(expected_value, actual_value)
                } else {
                    json_eq(expected_value, actual_value)
                }
            },
        };
        if !ok {
            assert(!(has_key(a@, e@[i as int].0) && field_matches(
                e@[i as int].1,
                lookup(a@, e@[i as int].0)->0,
            )));
            return false;
        }
        i = i + 1;
    }
    true
}

/// Whether `expected` matches `actual` or a value nested inside it.
pub fn json_contains(expected: &JsonValue, actual: &JsonValue) -> (r: bool)
    ensures
        r == contains_model(expected@, actual@),
    decreases actual,
{
    if json_eq(expected, actual) || json_subset_matches(expected, actual) {
        return true;
    }
    match actual {
        JsonValue::Array(values) => {
            let mut i: usize = 0;
            while i < values.len()
                invariant
                    i <= values@.len(),
                    *actual == JsonValue::Array(*values),
                    actual@ is Array,
                    actual@->Array_0.len() == values@.len(),
                    forall|j: int|
                        0 <= j < values@.len() ==> #[trigger] actual@->Array_0[j] == values@[j]@,
                    forall|j: int|
                        0 <= j < i ==> !contains_model(expected@, #[trigger] actual@->Array_0[j]),
                decreases values.len() - i,
            {
                proof {
                    lemma_array_decreases(*actual, i as int);
                }
                if json_contains(expected, &values[i]) {
                    assert(contains_model(expected@, actual@->Array_0[i as int]));
                    return true;
                }
                i = i + 1;
            }
            false
        },
        JsonValue::Object(entries) => {
            let n = entries.len();
            let mut i: usize = 0;
            while i < n
                invariant
                    i <= n == entries@.len(),
                    *actual == JsonValue::Object(*entries),
                    actual@ == JsonModel::Object(entries@),
                    forall|j: int| 0 <= j < i ==> !contains_model(expected@, #[trigger] entries@[j].1),
                decreases n - i,
            {
                let (_, value) = entries.entry(i);
                if json_contains(expected, value) {
                    assert(contains_model(expected@, entries@[i as int].1));
                    return true;
                }
                i = i + 1;
            }
            false
        },
        _ => false,
    }
}

/// Some observed output replays `answer`.
pub open spec fn replayed(answer: JsonModel, observed: Seq<JsonValue>) -> bool {
    exists|j: int| 0 <= j < observed.len() && contains_model(answer, #[trigger] observed[j]@)
}

/// Whether some observed output replays `answer`.
fn replayed_by_any(answer: &JsonValue, observed: &Vec<JsonValue>) -> (r: bool)
    ensures
        r == replayed(answer@, observed@),
{
    let mut j: usize = 0;
    while j < observed.len()
        invariant
            j <= observed@.len(),
            forall|m: int| 0 <= m < j ==> !contains_model(answer@, #[trigger] observed@[m]@),
        decreases observed.len() - j,
    {
        if json_contains(answer, &observed[j]) {
            return true;
        }
        j = j + 1;
    }
    false
}

/// The obligation's field name for a request.
pub open spec fn replay_field(request_id: Seq<char>) -> Seq<char> {
    "caller.answers."@ + request_id + ".replayed"@
}

/// Every supplied answer must be replayed by some observed output; the
/// first answer in request order that is not is reported, with the
/// observed outputs.
pub fn assert_replayed_answers(answers: &JsonObject, observed: &Vec<JsonValue>) -> (r: Result<
    (),
    HarnessReplayError,
>)
    ensures
        r is Ok <==> forall|i: int|
            0 <= i < answers@.len() ==> replayed(#[trigger] answers@[i].1, observed@),
        r matches Err(HarnessReplayError::Mismatch { field, expected, actual }) ==> exists|i: int|
            0 <= i < answers@.len() && field@ == replay_field(answers@[i].0) && expected@
                == answers@[i].1 && (forall|j: int|
                0 <= j < observed@.len() ==> !contains_model(answers@[i].1, #[trigger] observed@[j]@))
                && actual@ is Array && actual@->Array_0.len() == observed@.len() && (forall|j: int|
                0 <= j < observed@.len() ==> #[trigger] actual@->Array_0[j] == observed@[j]@),
{
    let n = answers.len();
    let mut i: usize = 0;
    while i < n
        invariant
            i <= n == answers@.len(),
            forall|k: int| 0 <= k < i ==> replayed(#[trigger] answers@[k].1, observed@),
        decreases n - i,
    {
        let (request_id, answer) = answers.entry(i);
        let found = replayed_by_any(answer, observed);
        if !found {
            let mut copies: Vec<JsonValue> = Vec::new();
            let mut m: usize = 0;
            while m < observed.len()
                invariant
                    m <= observed@.len(),
                    copies@.len() == m,
                    forall|k: int| 0 <= k < m ==> #[trigger] copies@[k]@ == observed@[k]@,
                decreases observed.len() - m,
            {
                copies.push(clone_value(&observed[m]));
                m = m + 1;
            }
            let head = concat("caller.answers.", request_id.as_str());
            let field = concat(head.as_str(), ".replayed");
            let actual = JsonValue::Array(copies);
            proof {
                assert(actual@->Array_0.len() == observed@.len());
                assert forall|k: int| 0 <= k < observed@.len() implies #[trigger] actual@->Array_0[k]
                    == observed@[k]@ by {
                    assert(actual@->Array_0[k] == copies@[k]@);
                }
                assert(!(exists|j: int|
                    0 <= j < observed@.len() && contains_model(
                        answers@[i as int].1,
                        observed@[j]@,
                    )));
            }
            return Err(
                HarnessReplayError::Mismatch { field, expected: clone_value(answer), actual },
            );
        }
        i = i + 1;
    }
    Ok(())
}

} // verus!
