use runx::js_engine::{
    bounded_message, engine_failure, validate_export_name, validate_module_path, EngineError,
    JobBudget, WorkerFailureCode, ERROR_MESSAGE_BYTES,
};

#[test]
fn module_paths_are_normalized_relative_scripts() {
    assert!(validate_module_path("main.mjs").is_ok());
    assert!(validate_module_path("domain/value.js").is_ok());
    for bad in ["", "/abs.mjs", "a\\b.mjs", "a//b.mjs", "./a.mjs", "a/../b.mjs", "main.ts", "dir/"] {
        let error = validate_module_path(bad).expect_err(bad);
        assert_eq!(error.code, WorkerFailureCode::ModuleRejected);
    }
    assert_eq!(
        validate_module_path("main.ts").unwrap_err().message,
        "JavaScript module path \"main.ts\" is not a normalized relative .js/.mjs path"
    );
}

#[test]
fn export_names_are_identifiers() {
    assert!(validate_export_name("default").is_ok());
    assert!(validate_export_name("$run_2").is_ok());
    assert!(validate_export_name("_").is_ok());
    let error = validate_export_name("2run").unwrap_err();
    assert_eq!(error.code, WorkerFailureCode::InvalidRequest);
    assert_eq!(error.message, "JavaScript export name \"2run\" is not an identifier");
    assert!(validate_export_name("").is_err());
    assert!(validate_export_name("a-b").is_err());
}

#[test]
fn long_messages_are_cut_on_a_character_boundary() {
    let short = "x".repeat(ERROR_MESSAGE_BYTES);
    assert_eq!(bounded_message(short.clone()), short);
    let long = "x".repeat(ERROR_MESSAGE_BYTES + 1);
    let cut = bounded_message(long);
    assert_eq!(cut.len(), ERROR_MESSAGE_BYTES + '…'.len_utf8());
    assert!(cut.ends_with('…'));
    // A two-byte character straddling the limit is dropped whole.
    let straddle = format!("{}é", "x".repeat(ERROR_MESSAGE_BYTES - 1));
    assert_eq!(bounded_message(straddle), format!("{}…", "x".repeat(ERROR_MESSAGE_BYTES - 1)));
}

#[test]
fn engine_errors_carry_code_and_context() {
    let error = engine_failure("parsing JavaScript module \"a.mjs\"", "unexpected token");
    assert_eq!(
        error,
        EngineError {
            code: WorkerFailureCode::ExecutionFailed,
            message: "parsing JavaScript module \"a.mjs\": unexpected token".to_owned(),
        }
    );
}

#[test]
fn job_budget_overflows_for_good() {
    let mut budget = JobBudget::new(2);
    assert!(budget.accept_job());
    assert!(budget.accept_job());
    assert!(budget.check().is_ok());
    assert!(!budget.accept_job());
    assert!(!budget.accept_job());
    let error = budget.check().unwrap_err();
    assert_eq!(error.code, WorkerFailureCode::ResourceLimit);
    assert_eq!(error.message, "JavaScript queued more than 2 jobs");
}
