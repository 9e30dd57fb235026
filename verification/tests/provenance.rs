use runx::json::{JsonObject, JsonValue};
use runx::provenance::{
    attach_registry_provenance, prepared_entry_provenance, registry_provenance, RegistryTrustState,
    ResolvedSkillRef, SkillRefKind,
};

fn local() -> ResolvedSkillRef {
    ResolvedSkillRef {
        kind: SkillRefKind::WorkspaceLocal,
        runnable_path: "/work/skills/echo".to_owned(),
        skill_id: None,
        version: None,
        digest: None,
        profile_digest: None,
        registry_source: None,
        registry_source_fingerprint: None,
        trust_tier: None,
        registry_key_id: None,
        trust_state: None,
    }
}

fn from_registry(trust: RegistryTrustState) -> ResolvedSkillRef {
    ResolvedSkillRef {
        kind: SkillRefKind::Registry,
        runnable_path: "/cache/acme/echo".to_owned(),
        skill_id: Some("acme/echo".to_owned()),
        version: Some("1.2.0".to_owned()),
        digest: Some("sha256:11".to_owned()),
        profile_digest: None,
        registry_source: Some("https://registry.example".to_owned()),
        registry_source_fingerprint: Some("fp:22".to_owned()),
        trust_tier: Some("verified".to_owned()),
        registry_key_id: None,
        trust_state: Some(trust),
    }
}

fn text(object: &JsonObject, key: &str) -> Option<String> {
    match object.get(key) {
        Some(JsonValue::String(s)) => Some(s.clone()),
        _ => None,
    }
}

#[test]
fn local_skills_have_no_registry_provenance() {
    assert!(registry_provenance(&local()).is_none());
}

#[test]
fn registry_provenance_lists_known_facts() {
    let p = registry_provenance(&from_registry(RegistryTrustState::Trusted)).unwrap();
    assert_eq!(text(&p, "skill_id"), Some("acme/echo".to_owned()));
    assert_eq!(text(&p, "version"), Some("1.2.0".to_owned()));
    assert_eq!(text(&p, "digest"), Some("sha256:11".to_owned()));
    assert_eq!(text(&p, "registry_source"), Some("https://registry.example".to_owned()));
    assert_eq!(text(&p, "registry_source_fingerprint"), Some("fp:22".to_owned()));
    assert_eq!(text(&p, "trust_tier"), Some("verified".to_owned()));
    assert_eq!(text(&p, "trust_state"), Some("trusted".to_owned()));
    assert_eq!(text(&p, "profile_digest"), None);
    assert_eq!(text(&p, "registry_key_id"), None);
    assert_eq!(p.len(), 7);
}

#[test]
fn untrusted_state_is_left_out() {
    let p = registry_provenance(&from_registry(RegistryTrustState::Untrusted)).unwrap();
    assert_eq!(text(&p, "trust_state"), None);
    assert_eq!(p.len(), 6);
}

#[test]
fn provenance_is_attached_to_objects_only() {
    let mut output = JsonValue::Object(JsonObject::new());
    attach_registry_provenance(&mut output, &from_registry(RegistryTrustState::Trusted));
    match &output {
        JsonValue::Object(o) => {
            assert_eq!(o.len(), 1);
            assert!(matches!(o.get("registry_provenance"), Some(JsonValue::Object(_))));
        }
        _ => panic!("object expected"),
    }
    let mut scalar = JsonValue::Bool(true);
    attach_registry_provenance(&mut scalar, &from_registry(RegistryTrustState::Trusted));
    assert_eq!(scalar, JsonValue::Bool(true));
    let mut untouched = JsonValue::Object(JsonObject::new());
    attach_registry_provenance(&mut untouched, &local());
    assert_eq!(untouched, JsonValue::Object(JsonObject::new()));
}

#[test]
fn entry_provenance_prefers_registry_source() {
    let entry = prepared_entry_provenance(&from_registry(RegistryTrustState::Trusted));
    assert_eq!(entry.kind, "registry");
    assert_eq!(entry.source, "https://registry.example");
    assert_eq!(entry.source_label, "fp:22");
    assert_eq!(entry.reference, Some("acme/echo".to_owned()));
    assert_eq!(entry.package_digest, None);
    let entry = prepared_entry_provenance(&local());
    assert_eq!(entry.kind, "workspace_local");
    assert_eq!(entry.source, "local-path");
    assert_eq!(entry.source_label, "/work/skills/echo");
    assert_eq!(entry.reference, None);
}
