use runx::json::{JsonObject, JsonValue};
use runx::output_contract::{attach_verified_metadata, contract_metadata};

const KEY: &str = "contract_verification";

#[test]
fn no_declared_contract_produces_no_receipt_metadata() {
    assert!(contract_metadata(KEY, None, JsonObject::new()).is_empty());
}

#[test]
fn a_declared_contract_is_recorded_by_digest_and_schemas() {
    let mut schemas = JsonObject::new();
    schemas.insert("demo.decision.v1".to_owned(), JsonValue::String("sha256:s".to_owned()));
    let metadata = contract_metadata(KEY, Some("sha256:o"), schemas);
    let record = metadata.get(KEY).and_then(|v| v.as_object()).expect("record");
    assert_eq!(record.get("output_contract_sha256"), Some(&JsonValue::String("sha256:o".to_owned())));
    assert!(record.get("packet_schemas").is_some());
    let only_digest = contract_metadata(KEY, Some("sha256:o"), JsonObject::new());
    let record = only_digest.get(KEY).and_then(|v| v.as_object()).expect("record");
    assert!(record.get("packet_schemas").is_none());
}

#[test]
fn verification_metadata_is_attached_once_and_alone() {
    let mut output = JsonObject::new();
    assert_eq!(attach_verified_metadata(&mut output, JsonObject::new(), KEY), Ok(()));
    assert!(output.is_empty());
    let metadata = contract_metadata(KEY, Some("sha256:o"), JsonObject::new());
    assert_eq!(attach_verified_metadata(&mut output, metadata, KEY), Ok(()));
    assert!(output.get(KEY).is_some());
    let again = contract_metadata(KEY, Some("sha256:o"), JsonObject::new());
    assert_eq!(
        attach_verified_metadata(&mut output, again, KEY),
        Err("runner output supplied duplicate contract verification metadata".to_owned())
    );
    let mut extra = contract_metadata(KEY, Some("sha256:o"), JsonObject::new());
    extra.insert("other".to_owned(), JsonValue::Null);
    assert_eq!(
        attach_verified_metadata(&mut JsonObject::new(), extra, KEY),
        Err("runner contract verification produced undeclared metadata".to_owned())
    );
}
