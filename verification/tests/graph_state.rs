use runx::graph_state::{validate_graph_state_identity, GraphStateIdentity};

fn saved() -> GraphStateIdentity {
    GraphStateIdentity {
        schema: "graph-state.v1".to_owned(),
        run_id: "run_1".to_owned(),
        runner_name: "main".to_owned(),
        package_digest: "sha256:aa".to_owned(),
        execution_closure_digest: "sha256:bb".to_owned(),
    }
}

#[test]
fn matching_state_is_accepted() {
    let state = saved();
    assert_eq!(
        validate_graph_state_identity(&state, "graph-state.v1", "run_1", "main", "sha256:aa", "sha256:bb"),
        Ok(())
    );
}

#[test]
fn schema_mismatch_is_reported_first() {
    let mut state = saved();
    state.schema = "graph-state.v0".to_owned();
    state.run_id = "other".to_owned();
    assert_eq!(
        validate_graph_state_identity(&state, "graph-state.v1", "run_1", "main", "sha256:aa", "sha256:bb"),
        Err("graph state schema mismatch for run run_1: expected graph-state.v1, got graph-state.v0".to_owned())
    );
}

#[test]
fn run_id_mismatch_names_both_runs() {
    let mut state = saved();
    state.run_id = "run_2".to_owned();
    assert_eq!(
        validate_graph_state_identity(&state, "graph-state.v1", "run_1", "main", "sha256:aa", "sha256:bb"),
        Err("graph state run_id mismatch: expected run_1, got run_2".to_owned())
    );
}

#[test]
fn runner_package_and_closure_mismatches_are_refused() {
    let mut state = saved();
    state.runner_name = "alt".to_owned();
    assert_eq!(
        validate_graph_state_identity(&state, "graph-state.v1", "run_1", "main", "sha256:aa", "sha256:bb"),
        Err("graph state runner_name mismatch for run run_1: expected main, got alt".to_owned())
    );
    let mut state = saved();
    state.package_digest = "sha256:cc".to_owned();
    assert_eq!(
        validate_graph_state_identity(&state, "graph-state.v1", "run_1", "main", "sha256:aa", "sha256:bb"),
        Err("graph state package_digest mismatch for run run_1: expected sha256:aa, got sha256:cc".to_owned())
    );
    let mut state = saved();
    state.execution_closure_digest = "sha256:dd".to_owned();
    assert_eq!(
        validate_graph_state_identity(&state, "graph-state.v1", "run_1", "main", "sha256:aa", "sha256:bb"),
        Err(
            "graph state execution_closure_digest mismatch for run run_1: expected sha256:bb, got sha256:dd"
                .to_owned()
        )
    );
}
