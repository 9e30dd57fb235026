use runx::json::{JsonObject, JsonValue};
use runx::provider::HostedProviderGrant;
use runx::provider_permission::{
    explicit_native_provider_resolution, hosted_grants_needed, missing_scopes,
    required_expected_provider, resolve_hosted_provider_env, select_hosted_provider_grant,
};

fn grant(id: &str, provider: &str, scopes: &[&str], status: &str) -> HostedProviderGrant {
    HostedProviderGrant {
        grant_id: id.to_owned(),
        provider: provider.to_owned(),
        scopes: scopes.iter().map(|s| s.to_string()).collect(),
        status: status.to_owned(),
    }
}

fn strings(items: &[&str]) -> Vec<String> {
    items.iter().map(|s| s.to_string()).collect()
}

fn env(pairs: &[(&str, &str)]) -> Vec<(String, String)> {
    pairs.iter().map(|(k, v)| (k.to_string(), v.to_string())).collect()
}

#[test]
fn explicit_resolution_needs_grant_scopes_and_principal() {
    let full = env(&[
        ("RUNX_PROVIDER_PERMISSION_GRANT_ID", "grant_google_read"),
        ("RUNX_PROVIDER_PERMISSION_GRANTED_SCOPES", "properties.read,reports.read"),
        ("RUNX_PROVIDER_PERMISSION_PRINCIPAL_REF", " runx:principal:op "),
    ]);
    let resolved = explicit_native_provider_resolution(&full).expect("explicit");
    assert_eq!(resolved.principal_ref, "runx:principal:op");
    assert_eq!(resolved.env, full);
    let no_principal = env(&[
        ("RUNX_PROVIDER_PERMISSION_GRANT_ID", "grant_google_read"),
        ("RUNX_PROVIDER_PERMISSION_GRANTED_SCOPES", "properties.read"),
    ]);
    assert!(explicit_native_provider_resolution(&no_principal).is_none());
    assert!(!hosted_grants_needed(&no_principal));
    assert!(hosted_grants_needed(&env(&[("RUNX_PROVIDER_PERMISSION_GRANT_ID", "g"), ("RUNX_PROVIDER_PERMISSION_GRANTED_SCOPES", "  ")])));
}

#[test]
fn expected_provider_is_required() {
    let mut inputs = JsonObject::new();
    assert_eq!(
        required_expected_provider(&inputs),
        Err("native provider tools require expected_provider".to_owned())
    );
    inputs.insert("expected_provider".to_owned(), JsonValue::String(" google ".to_owned()));
    assert_eq!(required_expected_provider(&inputs), Ok("google".to_owned()));
}

#[test]
fn exactly_one_active_grant_must_cover_the_scopes() {
    let grants = vec![
        grant("g2", "google", &["reports.read", "properties.read"], "active"),
        grant("g1", "google", &["reports.read"], "active"),
        grant("g3", "google", &["reports.read", "properties.read"], "revoked"),
        grant("s1", "slack", &["properties.read", "reports.read"], "active"),
    ];
    let scopes = strings(&["properties.read", "reports.read"]);
    assert_eq!(missing_scopes(&scopes, &strings(&["reports.read"])), strings(&["properties.read"]));
    assert_eq!(select_hosted_provider_grant(&grants, "google", &scopes, None), Ok(0));
    assert_eq!(
        select_hosted_provider_grant(&grants, "google", &scopes, Some("g1")),
        Err("configured provider grant does not authorize google scopes [properties.read, reports.read]".to_owned())
    );
    assert_eq!(
        select_hosted_provider_grant(&grants, "github", &scopes, None),
        Err("no active Runx Connect grant authorizes github scopes [properties.read, reports.read]".to_owned())
    );
    assert_eq!(
        select_hosted_provider_grant(&grants, "google", &strings(&["reports.read"]), None),
        Err("multiple active Runx Connect grants authorize google scopes [reports.read]; select one with RUNX_PROVIDER_PERMISSION_GRANT_ID".to_owned())
    );
}

#[test]
fn hosted_resolution_binds_the_selected_grant() {
    let grants = vec![grant("g1", "google", &["a", "b"], "active")];
    let resolved = resolve_hosted_provider_env(env(&[("HOME", "/h")]), "op", &grants, "google", &strings(&["a"]))
        .expect("single grant");
    assert_eq!(resolved.principal_ref, "runx:principal:op");
    assert_eq!(
        resolved.env,
        env(&[
            ("HOME", "/h"),
            ("RUNX_PROVIDER_PERMISSION_GRANT_ID", "g1"),
            ("RUNX_PROVIDER_PERMISSION_GRANTED_SCOPES", "a,b"),
        ])
    );
    let configured = env(&[
        ("RUNX_PROVIDER_PERMISSION_GRANT_ID", "mine"),
        ("RUNX_PROVIDER_PERMISSION_GRANTED_SCOPES", "x"),
    ]);
    let kept = resolve_hosted_provider_env(configured.clone(), "op", &vec![], "google", &strings(&["a"]))
        .expect("configured grant");
    assert_eq!(kept.env, configured);
    assert!(resolve_hosted_provider_env(env(&[]), "op", &vec![], "google", &strings(&["a"])).is_err());
}
