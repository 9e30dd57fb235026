use runx::json::{JsonNumber, JsonObject, JsonValue};
use runx::step_outputs::{
    contract_output_claim, declared_claim_value, expose_declared_run_outputs,
    project_declared_run_outputs,
    reject_reserved_step_output_name, InvalidRunStep,
};

fn object(pairs: Vec<(&str, JsonValue)>) -> JsonObject {
    let mut object = JsonObject::new();
    for (key, value) in pairs {
        object.insert(key.to_owned(), value);
    }
    object
}

fn num(n: i64) -> JsonValue {
    JsonValue::Number(JsonNumber::I64(n))
}

#[test]
fn successful_invocation_still_owes_every_declared_output() {
    let claim = JsonObject::new();
    let mut outputs = JsonObject::new();
    let error = expose_declared_run_outputs("produce", &vec!["result".to_owned()], &claim, &mut outputs)
        .expect_err("success without the declared output must fail");
    assert_eq!(error.step_id, "produce");
    assert!(error.reason.contains("declared run output \"result\" was not returned"));
    assert!(outputs.is_empty());
}

#[test]
fn declared_values_come_from_the_claim_or_its_envelopes() {
    let claim = object(vec![
        ("direct", num(1)),
        ("output", object_value(vec![("wrapped", num(2)), ("direct", num(9))])),
        ("payload", object_value(vec![("late", num(3))])),
        ("outputs", JsonValue::String("not an object".to_owned())),
    ]);
    assert_eq!(declared_claim_value(&claim, "direct"), Some(num(1)));
    assert_eq!(declared_claim_value(&claim, "wrapped"), Some(num(2)));
    assert_eq!(declared_claim_value(&claim, "late"), Some(num(3)));
    assert_eq!(declared_claim_value(&claim, "absent"), None);

    let mut outputs = object(vec![("stdout", JsonValue::String("log".to_owned()))]);
    let declared = vec!["direct".to_owned(), "late".to_owned()];
    assert!(expose_declared_run_outputs("s", &declared, &claim, &mut outputs).is_ok());
    assert_eq!(outputs.get("direct"), Some(&num(1)));
    assert_eq!(outputs.get("late"), Some(&num(3)));
    assert_eq!(outputs.len(), 3);
}

fn object_value(pairs: Vec<(&str, JsonValue)>) -> JsonValue {
    JsonValue::Object(object(pairs))
}

#[test]
fn diagnostic_names_are_reserved_and_hidden_from_the_contract() {
    assert_eq!(
        reject_reserved_step_output_name("s", "stdout", "artifact output"),
        Err(InvalidRunStep {
            step_id: "s".to_owned(),
            reason: "artifact output name \"stdout\" is reserved".to_owned(),
        })
    );
    assert!(reject_reserved_step_output_name("s", "report", "declared run output").is_ok());
    let outputs = object(vec![
        ("raw", num(0)),
        ("status", JsonValue::String("success".to_owned())),
        ("report", num(7)),
    ]);
    let claim = contract_output_claim(&outputs);
    assert_eq!(claim.len(), 1);
    assert_eq!(claim.get("report"), Some(&num(7)));
}

#[test]
fn a_failed_invocation_owes_no_declared_output() {
    let claim = object(vec![("provider_error", JsonValue::String("credits depleted".to_owned()))]);
    let mut outputs = JsonObject::new();
    project_declared_run_outputs(false, "produce", &vec!["result".to_owned()], &claim, &mut outputs)
        .expect("a failed invocation does not owe its success contract");
    assert!(outputs.is_empty());
    let error = project_declared_run_outputs(true, "produce", &vec!["result".to_owned()], &claim, &mut outputs)
        .expect_err("success without the declared output must fail");
    assert!(error.reason.contains("declared run output \"result\" was not returned"));
}
