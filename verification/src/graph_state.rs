//! The identity a saved graph run state must carry before a paused run may
//! resume from it.
use vstd::prelude::*;

use crate::text::{concat, str_eq};

verus! {

/// What identifies a saved graph run state.
#[derive(Debug, PartialEq, Eq)]
pub struct GraphStateIdentity {
    pub schema: String,
    pub run_id: String,
    pub runner_name: String,
    pub package_digest: String,
    pub execution_closure_digest: String,
}

pub open spec fn mismatch(field: Seq<char>, run_id: Seq<char>, expected: Seq<char>, got: Seq<char>) -> Seq<char> {
    "graph state "@ + field + " mismatch for run "@ + run_id + ": expected "@ + expected + ", got "@ + got
}

/// The first way a saved state fails to belong to the run being resumed.
pub open spec fn identity_check(
    state: GraphStateIdentity,
    schema: Seq<char>,
    run_id: Seq<char>,
    runner_name: Seq<char>,
    package_digest: Seq<char>,
    closure_digest: Seq<char>,
) -> Option<Seq<char>> {
    if state.schema@ != schema {
        Some(mismatch("schema"@, run_id, schema, state.schema@))
    } else if state.run_id@ != run_id {
        Some("graph state run_id mismatch: expected "@ + run_id + ", got "@ + state.run_id@)
    } else if state.runner_name@ != runner_name {
        Some(mismatch("runner_name"@, run_id, runner_name, state.runner_name@))
    } else if state.package_digest@ != package_digest {
        Some(mismatch("package_digest"@, run_id, package_digest, state.package_digest@))
    } else if state.execution_closure_digest@ != closure_digest {
        Some(mismatch("execution_closure_digest"@, run_id, closure_digest, state.execution_closure_digest@))
    } else {
        None
    }
}

fn mismatch_message(field: &str, run_id: &str, expected: &str, got: &str) -> (r: String)
    ensures
        r@ == mismatch(field@, run_id@, expected@, got@),
{
    let a = concat("graph state ", field);
    let b = concat(a.as_str(), " mismatch for run ");
    let c = concat(b.as_str(), run_id);
    let d = concat(c.as_str(), ": expected ");
    let e = concat(d.as_str(), expected);
    let f = concat(e.as_str(), ", got ");
    concat(f.as_str(), got)
}

/// Accepts a saved state only for the same schema, run, runner, package and
/// execution closure.
pub fn validate_graph_state_identity(
    state: &GraphStateIdentity,
    schema: &str,
    run_id: &str,
    runner_name: &str,
    package_digest: &str,
    execution_closure_digest: &str,
) -> (r: Result<(), String>)
    ensures
        match identity_check(*state, schema@, run_id@, runner_name@, package_digest@, execution_closure_digest@) {
            Some(m) => r matches Err(x) && x@ == m,
            None => r is Ok,
        },
{
    if !str_eq(state.schema.as_str(), schema) {
        return Err(mismatch_message("schema", run_id, schema, state.schema.as_str()));
    }
    if !str_eq(state.run_id.as_str(), run_id) {
        let a = concat("graph state run_id mismatch: expected ", run_id);
        let b = concat(a.as_str(), ", got ");
        return Err(concat(b.as_str(), state.run_id.as_str()));
    }
    if !str_eq(state.runner_name.as_str(), runner_name) {
        return Err(mismatch_message("runner_name", run_id, runner_name, state.runner_name.as_str()));
    }
    if !str_eq(state.package_digest.as_str(), package_digest) {
        return Err(mismatch_message("package_digest", run_id, package_digest, state.package_digest.as_str()));
    }
    if !str_eq(state.execution_closure_digest.as_str(), execution_closure_digest) {
        return Err(
            mismatch_message(
                "execution_closure_digest",
                run_id,
                execution_closure_digest,
                state.execution_closure_digest.as_str(),
            ),
        );
    }
    Ok(())
}

/// A state that passes belongs to exactly the run it is resumed for.
pub proof fn lemma_accepted_state_matches(
    state: GraphStateIdentity,
    schema: Seq<char>,
    run_id: Seq<char>,
    runner_name: Seq<char>,
    package_digest: Seq<char>,
    closure_digest: Seq<char>,
)
    requires
        identity_check(state, schema, run_id, runner_name, package_digest, closure_digest) is None,
    ensures
        state.schema@ == schema,
        state.run_id@ == run_id,
        state.runner_name@ == runner_name,
        state.package_digest@ == package_digest,
        state.execution_closure_digest@ == closure_digest,
{
}

} // verus!
