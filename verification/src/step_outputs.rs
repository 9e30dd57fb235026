//! The addressable outputs of a graph step: the values its runner contract
//! declares, found in the step's claim or in one of its envelopes, and the
//! diagnostic names no contract may claim.
use vstd::prelude::*;

use crate::json::{clone_value, lookup, JsonModel, JsonObject, JsonValue};
use crate::text::{concat, debug_quoted, debug_str, str_eq};

verus! {

/// Diagnostic keys of every step projection, never part of a contract.
pub open spec fn base_output_fields() -> Seq<Seq<char>> {
    seq!["raw"@, "skill_claim"@, "stdout"@, "stderr"@, "status"@]
}

/// Whether `name` is a diagnostic key.
pub fn is_base_output_field(name: &str) -> (r: bool)
    ensures
        r == base_output_fields().contains(name@),
{
    let r = str_eq(name, "raw") || str_eq(name, "skill_claim") || str_eq(name, "stdout") || str_eq(
        name,
        "stderr",
    ) || str_eq(name, "status");
    proof {
        if r {
            if name@ == "raw"@ {
                assert(base_output_fields()[0] == name@);
            } else if name@ == "skill_claim"@ {
                assert(base_output_fields()[1] == name@);
            } else if name@ == "stdout"@ {
                assert(base_output_fields()[2] == name@);
            } else if name@ == "stderr"@ {
                assert(base_output_fields()[3] == name@);
            } else {
                assert(base_output_fields()[4] == name@);
            }
        }
    }
    r
}

/// Why a step's outputs could not be projected.
#[derive(Debug, PartialEq, Eq)]
pub struct InvalidRunStep {
    pub step_id: String,
    pub reason: String,
}

/// A declared value: the claim's own field, else the field of its first
/// `output`, `outputs` or `payload` envelope that is an object holding it.
pub open spec fn claim_value(claim: Seq<(Seq<char>, JsonModel)>, name: Seq<char>) -> Option<JsonModel> {
    match lookup(claim, name) {
        Some(v) => Some(v),
        None => match envelope_value(claim, "output"@, name) {
            Some(v) => Some(v),
            None => match envelope_value(claim, "outputs"@, name) {
                Some(v) => Some(v),
                None => envelope_value(claim, "payload"@, name),
            },
        },
    }
}

/// The field `name` of the object under `envelope`.
pub open spec fn envelope_value(claim: Seq<(Seq<char>, JsonModel)>, envelope: Seq<char>, name: Seq<char>) -> Option<
    JsonModel,
> {
    match lookup(claim, envelope) {
        Some(JsonModel::Object(o)) => lookup(o, name),
        _ => None,
    }
}

fn envelope_field(claim: &JsonObject, envelope: &str, name: &str) -> (r: Option<JsonValue>)
    ensures
        match envelope_value(claim@, envelope@, name@) {
            Some(v) => r matches Some(x) && x@ == v,
            None => r is None,
        },
{
    match claim.get(envelope) {
        Some(JsonValue::Object(o)) => match o.get(name) {
            Some(v) => Some(clone_value(v)),
            None => None,
        },
        _ => None,
    }
}

/// The value a claim gives for a declared output.
pub fn declared_claim_value(claim: &JsonObject, name: &str) -> (r: Option<JsonValue>)
    ensures
        match claim_value(claim@, name@) {
            Some(v) => r matches Some(x) && x@ == v,
            None => r is None,
        },
{
    if let Some(v) = claim.get(name) {
        return Some(clone_value(v));
    }
    if let Some(v) = envelope_field(claim, "output", name) {
        return Some(v);
    }
    if let Some(v) = envelope_field(claim, "outputs", name) {
        return Some(v);
    }
    envelope_field(claim, "payload", name)
}

pub open spec fn reserved_message(kind: Seq<char>, name: Seq<char>) -> Seq<char> {
    kind + " name "@ + debug_quoted(name) + " is reserved"@
}

/// A contract may not name a diagnostic key.
pub fn reject_reserved_step_output_name(step_id: &str, name: &str, output_kind: &str) -> (r: Result<
    (),
    InvalidRunStep,
>)
    ensures
        r is Ok <==> !base_output_fields().contains(name@),
        r matches Err(e) ==> e.step_id@ == step_id@ && e.reason@ == reserved_message(output_kind@, name@),
{
    if is_base_output_field(name) {
        let a = concat(output_kind, " name ");
        let b = concat(a.as_str(), debug_str(name).as_str());
        return Err(InvalidRunStep { step_id: step_id.to_owned(), reason: concat(b.as_str(), " is reserved") });
    }
    Ok(())
}

pub open spec fn missing_message(name: Seq<char>) -> Seq<char> {
    "declared run output "@ + debug_quoted(name) + " was not returned by the step"@
}

/// The first declared output the claim does not give.
pub open spec fn first_missing(claim: Seq<(Seq<char>, JsonModel)>, declared: Seq<Seq<char>>) -> Option<int> {
    if exists|i: int| 0 <= i < declared.len() && #[trigger] claim_value(claim, declared[i]) is None {
        Some(
            choose|i: int|
                0 <= i < declared.len() && #[trigger] claim_value(claim, declared[i]) is None && forall|j: int|
                    0 <= j < i ==> #[trigger] claim_value(claim, declared[j]) is Some,
        )
    } else {
        None
    }
}

/// Exposes every declared output of a successful step under its name, in
/// declaration order; the first that the claim does not give fails the
/// step (nothing is exposed then).
pub fn expose_declared_run_outputs(
    step_id: &str,
    declared: &Vec<String>,
    claim: &JsonObject,
    outputs: &mut JsonObject,
) -> (r: Result<(), InvalidRunStep>)
    ensures
        (forall|i: int| 0 <= i < declared@.len() ==> #[trigger] claim_value(claim@, declared@[i]@) is Some)
            <==> r is Ok,
        r is Ok ==> final(outputs).map() == old(outputs).map().union_prefer_right(
            Map::new(
                |k: Seq<char>| exists|i: int| 0 <= i < declared@.len() && #[trigger] declared@[i]@ == k,
                |k: Seq<char>| claim_value(claim@, k)->0,
            ),
        ),
        r matches Err(e) ==> exists|i: int|
            0 <= i < declared@.len() && #[trigger] claim_value(claim@, declared@[i]@) is None && (forall|j: int|
                0 <= j < i ==> #[trigger] claim_value(claim@, declared@[j]@) is Some) && e.step_id@ == step_id@
                && e.reason@ == missing_message(declared@[i]@),
{
    let mut values: Vec<JsonValue> = Vec::new();
    let mut i: usize = 0;
    while i < declared.len()
        invariant
            i <= declared@.len(),
            values@.len() == i,
            forall|j: int|
                0 <= j < i ==> #[trigger] claim_value(claim@, declared@[j]@) == Some(values@[j]@),
        decreases declared.len() - i,
    {
        match declared_claim_value(claim, declared[i].as_str()) {
            Some(v) => {
                values.push(v);
            },
            None => {
                let a = concat("declared run output ", debug_str(declared[i].as_str()).as_str());
                return Err(
                    InvalidRunStep {
                        step_id: step_id.to_owned(),
                        reason: concat(a.as_str(), " was not returned by the step"),
                    },
                );
            },
        }
        i = i + 1;
    }
    let ghost before = outputs.map();
    let mut n: usize = 0;
    while n < declared.len()
        invariant
            n <= declared@.len(),
            values@.len() == declared@.len(),
            forall|j: int|
                0 <= j < declared@.len() ==> #[trigger] claim_value(claim@, declared@[j]@) == Some(values@[j]@),
            outputs.map() == before.union_prefer_right(
                Map::new(
                    |key: Seq<char>| exists|i: int| 0 <= i < n && #[trigger] declared@[i]@ == key,
                    |key: Seq<char>| claim_value(claim@, key)->0,
                ),
            ),
            forall|j: int| 0 <= j < declared@.len() ==> #[trigger] claim_value(claim@, declared@[j]@) is Some,
        decreases declared.len() - n,
    {
        let v = clone_value(&values[n]);
        outputs.insert(declared[n].clone(), v);
        proof {
            let name = declared@[n as int]@;
            assert(claim_value(claim@, name) == Some(v@));
            let lhs = outputs.map();
            let rhs = before.union_prefer_right(
                Map::new(
                    |key: Seq<char>| exists|i: int| 0 <= i < n + 1 && #[trigger] declared@[i]@ == key,
                    |key: Seq<char>| claim_value(claim@, key)->0,
                ),
            );
            assert forall|key: Seq<char>| #[trigger] lhs.contains_key(key) == rhs.contains_key(key) by {
                if key == name {
                    assert(declared@[n as int]@ == key);
                }
                if exists|i: int| 0 <= i < n + 1 && #[trigger] declared@[i]@ == key {
                    let i = choose|i: int| 0 <= i < n + 1 && #[trigger] declared@[i]@ == key;
                    if i < n {
                        assert(exists|i: int| 0 <= i < n && #[trigger] declared@[i]@ == key);
                    }
                }
            }
            assert forall|key: Seq<char>| lhs.contains_key(key) implies #[trigger] lhs[key] == rhs[key] by {
                if key == name {
                    assert(declared@[n as int]@ == key);
                } else if exists|i: int| 0 <= i < n && #[trigger] declared@[i]@ == key {
                    let i = choose|i: int| 0 <= i < n && #[trigger] declared@[i]@ == key;
                    assert(0 <= i < n + 1 && declared@[i]@ == key);
                } else if exists|i: int| 0 <= i < n + 1 && #[trigger] declared@[i]@ == key {
                    let i = choose|i: int| 0 <= i < n + 1 && #[trigger] declared@[i]@ == key;
                    if i < n {
                        assert(exists|i: int| 0 <= i < n && #[trigger] declared@[i]@ == key);
                    }
                }
            }
            assert(lhs =~= rhs);
        }
        n = n + 1;
    }
    Ok(())
}

/// The contract's outputs: every projected output but the diagnostic keys.
pub fn contract_output_claim(outputs: &JsonObject) -> (r: JsonObject)
    ensures
        r.map() == outputs.map().restrict(outputs.map().dom().filter(|k: Seq<char>| !base_output_fields().contains(k))),
{
    let mut r = JsonObject::new();
    let n = outputs.len();
    let mut i: usize = 0;
    while i < n
        invariant
            n == outputs@.len(),
            crate::json::sorted_keys(outputs@),
            i <= n,
            r.map() == crate::json::entry_map(outputs@.subrange(0, i as int)).restrict(
                crate::json::entry_map(outputs@.subrange(0, i as int)).dom().filter(|k: Seq<char>| !base_output_fields().contains(k)),
            ),
        decreases n - i,
    {
        let (key, value) = outputs.entry(i);
        proof {
            crate::json::lemma_entry_map_prefix(outputs@, i as int);
        }
        if !is_base_output_field(key.as_str()) {
            r.insert(key.clone(), clone_value(value));
        }
        proof {
            let p = crate::json::entry_map(outputs@.subrange(0, i as int));
            let q = crate::json::entry_map(outputs@.subrange(0, i + 1));
            assert(r.map() =~= q.restrict(q.dom().filter(|k: Seq<char>| !base_output_fields().contains(k))));
        }
        i = i + 1;
    }
    assert(outputs@.subrange(0, n as int) =~= outputs@);
    r
}


/// Projects a step's declared run outputs onto its outputs. A failed
/// invocation produced diagnostics, not its declared success contract: its
/// outputs are kept as they are and no declared output is owed. A
/// successful one owes every declared output (`expose_declared_run_outputs`).
pub fn project_declared_run_outputs(
    succeeded: bool,
    step_id: &str,
    declared: &Vec<String>,
    claim: &JsonObject,
    outputs: &mut JsonObject,
) -> (r: Result<(), InvalidRunStep>)
    ensures
        !succeeded ==> r is Ok && final(outputs)@ == old(outputs)@,
        succeeded ==> ((forall|i: int|
            0 <= i < declared@.len() ==> #[trigger] claim_value(claim@, declared@[i]@) is Some) <==> r is Ok),
        succeeded && r is Ok ==> final(outputs).map() == old(outputs).map().union_prefer_right(
            Map::new(
                |k: Seq<char>| exists|i: int| 0 <= i < declared@.len() && #[trigger] declared@[i]@ == k,
                |k: Seq<char>| claim_value(claim@, k)->0,
            ),
        ),
        succeeded ==> (r matches Err(e) ==> exists|i: int|
            0 <= i < declared@.len() && #[trigger] claim_value(claim@, declared@[i]@) is None && (forall|j: int|
                0 <= j < i ==> #[trigger] claim_value(claim@, declared@[j]@) is Some) && e.step_id@ == step_id@
                && e.reason@ == missing_message(declared@[i]@)),
{
    if !succeeded {
        return Ok(());
    }
    expose_declared_run_outputs(step_id, declared, claim, outputs)
}

} // verus!
