//! Where a resolved skill came from, as inspection and preparation record
//! it.
use vstd::prelude::*;

use crate::json::{JsonModel, JsonObject, JsonValue};

verus! {

/// How a skill reference was resolved.
#[derive(Clone, Copy, Debug, PartialEq, Eq)]
pub enum SkillRefKind {
    ExplicitPath,
    ExportedShim,
    WorkspaceLocal,
    Installed,
    Official,
    Registry,
}

/// Whether the registry's signature over a skill was trusted.
#[derive(Clone, Copy, Debug, PartialEq, Eq)]
pub enum RegistryTrustState {
    Trusted,
    Untrusted,
}

/// A resolved skill reference.
#[derive(Debug)]
pub struct ResolvedSkillRef {
    pub kind: SkillRefKind,
    pub runnable_path: String,
    pub skill_id: Option<String>,
    pub version: Option<String>,
    pub digest: Option<String>,
    pub profile_digest: Option<String>,
    pub registry_source: Option<String>,
    pub registry_source_fingerprint: Option<String>,
    pub trust_tier: Option<String>,
    pub registry_key_id: Option<String>,
    pub trust_state: Option<RegistryTrustState>,
}

pub open spec fn with_optional(m: Map<Seq<char>, JsonModel>, key: Seq<char>, value: Option<String>) -> Map<
    Seq<char>,
    JsonModel,
> {
    match value {
        Some(v) => m.insert(key, JsonModel::Str(v@)),
        None => m,
    }
}

/// The registry provenance of a skill that has a registry id: the id and
/// every registry fact that is known, `trust_state` only when trusted.
pub open spec fn provenance_map(r: ResolvedSkillRef) -> Option<Map<Seq<char>, JsonModel>> {
    match r.skill_id {
        None => None,
        Some(id) => {
            let m = Map::empty().insert("skill_id"@, JsonModel::Str(id@));
            let m = with_optional(m, "version"@, r.version);
            let m = with_optional(m, "digest"@, r.digest);
            let m = with_optional(m, "profile_digest"@, r.profile_digest);
            let m = with_optional(m, "registry_source"@, r.registry_source);
            let m = with_optional(m, "registry_source_fingerprint"@, r.registry_source_fingerprint);
            let m = with_optional(m, "trust_tier"@, r.trust_tier);
            let m = with_optional(m, "registry_key_id"@, r.registry_key_id);
            Some(
                if r.trust_state == Some(RegistryTrustState::Trusted) {
                    m.insert("trust_state"@, JsonModel::Str("trusted"@))
                } else {
                    m
                },
            )
        },
    }
}

/// Inserts a string under `key` when there is one.
pub fn insert_optional(object: &mut JsonObject, key: &str, value: Option<&String>)
    ensures
        final(object).map() == match value {
            Some(v) => old(object).map().insert(key@, JsonModel::Str(v@)),
            None => old(object).map(),
        },
{
    if let Some(v) = value {
        object.insert(key.to_owned(), JsonValue::String(v.clone()));
    }
}

fn opt_ref(o: &Option<String>) -> (r: Option<&String>)
    ensures
        match o {
            Some(v) => r == Some(v),
            None => r is None,
        },
{
    match o {
        Some(v) => Some(v),
        None => None,
    }
}

/// The registry provenance of a resolved skill.
pub fn registry_provenance(resolved: &ResolvedSkillRef) -> (r: Option<JsonObject>)
    ensures
        match provenance_map(*resolved) {
            Some(m) => r matches Some(o) && o.map() == m,
            None => r is None,
        },
{
    let skill_id = match &resolved.skill_id {
        Some(id) => id,
        None => {
            return None;
        },
    };
    let mut provenance = JsonObject::new();
    provenance.insert("skill_id".to_owned(), JsonValue::String(skill_id.clone()));
    insert_optional(&mut provenance, "version", opt_ref(&resolved.version));
    insert_optional(&mut provenance, "digest", opt_ref(&resolved.digest));
    insert_optional(&mut provenance, "profile_digest", opt_ref(&resolved.profile_digest));
    insert_optional(&mut provenance, "registry_source", opt_ref(&resolved.registry_source));
    insert_optional(&mut provenance, "registry_source_fingerprint", opt_ref(&resolved.registry_source_fingerprint));
    insert_optional(&mut provenance, "trust_tier", opt_ref(&resolved.trust_tier));
    insert_optional(&mut provenance, "registry_key_id", opt_ref(&resolved.registry_key_id));
    match resolved.trust_state {
        Some(RegistryTrustState::Trusted) => {
            provenance.insert("trust_state".to_owned(), JsonValue::String("trusted".to_owned()));
        },
        _ => {},
    }
    Some(provenance)
}

/// Records the registry provenance on an inspection object.
pub fn attach_registry_provenance(output: &mut JsonValue, resolved: &ResolvedSkillRef)
    ensures
        match (provenance_map(*resolved), *old(output)) {
            (Some(m), JsonValue::Object(o)) => *final(output) matches JsonValue::Object(p) && exists|q: JsonObject|
                q.map() == m && #[trigger] p.map() == o.map().insert("registry_provenance"@, JsonModel::Object(q@)),
            _ => *final(output) == *old(output),
        },
{
    let provenance = match registry_provenance(resolved) {
        Some(p) => p,
        None => {
            return;
        },
    };
    match output {
        JsonValue::Object(object) => {
            object.insert("registry_provenance".to_owned(), JsonValue::Object(provenance));
        },
        _ => {},
    }
}

/// How a prepared run records where its entry skill came from.
#[derive(Debug, PartialEq, Eq)]
pub struct PreparedEntryProvenance {
    pub kind: String,
    pub reference: Option<String>,
    pub source: String,
    pub source_label: String,
    pub skill_id: Option<String>,
    pub version: Option<String>,
    pub digest: Option<String>,
    pub package_digest: Option<String>,
    pub trust_tier: Option<String>,
}

pub open spec fn kind_name(k: SkillRefKind) -> Seq<char> {
    match k {
        SkillRefKind::ExplicitPath => "explicit_path"@,
        SkillRefKind::ExportedShim => "exported_shim"@,
        SkillRefKind::WorkspaceLocal => "workspace_local"@,
        SkillRefKind::Installed => "installed"@,
        SkillRefKind::Official => "official"@,
        SkillRefKind::Registry => "registry"@,
    }
}

/// The entry provenance of a resolved skill: a registry source and its
/// fingerprint when known, else the local path.
pub fn prepared_entry_provenance(resolved: &ResolvedSkillRef) -> (r: PreparedEntryProvenance)
    ensures
        r.kind@ == kind_name(resolved.kind),
        r.reference == resolved.skill_id,
        r.source@ == match resolved.registry_source {
            Some(s) => s@,
            None => "local-path"@,
        },
        r.source_label@ == match resolved.registry_source_fingerprint {
            Some(s) => s@,
            None => resolved.runnable_path@,
        },
        r.skill_id == resolved.skill_id,
        r.version == resolved.version,
        r.digest == resolved.digest,
        r.package_digest is None,
        r.trust_tier == resolved.trust_tier,
{
    let kind = match resolved.kind {
        SkillRefKind::ExplicitPath => "explicit_path",
        SkillRefKind::ExportedShim => "exported_shim",
        SkillRefKind::WorkspaceLocal => "workspace_local",
        SkillRefKind::Installed => "installed",
        SkillRefKind::Official => "official",
        SkillRefKind::Registry => "registry",
    };
    PreparedEntryProvenance {
        kind: kind.to_owned(),
        reference: clone_opt(&resolved.skill_id),
        source: match &resolved.registry_source {
            Some(s) => s.clone(),
            None => "local-path".to_owned(),
        },
        source_label: match &resolved.registry_source_fingerprint {
            Some(s) => s.clone(),
            None => resolved.runnable_path.clone(),
        },
        skill_id: clone_opt(&resolved.skill_id),
        version: clone_opt(&resolved.version),
        digest: clone_opt(&resolved.digest),
        package_digest: None,
        trust_tier: clone_opt(&resolved.trust_tier),
    }
}

fn clone_opt(o: &Option<String>) -> (r: Option<String>)
    ensures
        r == *o,
{
    match o {
        Some(s) => Some(s.clone()),
        None => None,
    }
}

} // verus!
