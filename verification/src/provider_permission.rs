//! Which provider grant a native provider tool runs under: one configured
//! explicitly in the environment, or the single active hosted grant that
//! covers the provider and every required scope.
use vstd::prelude::*;

use crate::json::{lookup, JsonModel, JsonObject, JsonValue};
use crate::provider::HostedProviderGrant;
use crate::sandbox_env::{clone_env, env_set, env_view};
use crate::scheduler::env_lookup;
use crate::text::{concat, join, joined, str_eq, string_views, trim, trim_spec};

verus! {

/// The variable naming the grant a provider tool runs under.
pub const PROVIDER_PERMISSION_GRANT_ID_ENV: &'static str = "RUNX_PROVIDER_PERMISSION_GRANT_ID";

/// The variable listing the scopes of that grant, comma-separated.
pub const PROVIDER_PERMISSION_GRANTED_SCOPES_ENV: &'static str = "RUNX_PROVIDER_PERMISSION_GRANTED_SCOPES";

/// The variable naming the principal the grant belongs to.
pub const PROVIDER_PERMISSION_PRINCIPAL_REF_ENV: &'static str = "RUNX_PROVIDER_PERMISSION_PRINCIPAL_REF";

/// The environment a provider tool runs with, and its principal.
#[derive(Debug, PartialEq, Eq)]
pub struct NativeProviderResolution {
    pub env: Vec<(String, String)>,
    pub principal_ref: String,
}

/// A variable's value, trimmed, when it is set and not blank.
pub open spec fn configured(env: Seq<(String, String)>, key: Seq<char>) -> Option<Seq<char>> {
    match env_lookup(env, key) {
        Some(v) => if trim_spec(v).len() > 0 {
            Some(trim_spec(v))
        } else {
            None
        },
        None => None,
    }
}

fn configured_value(env: &Vec<(String, String)>, key: &str) -> (r: Option<String>)
    ensures
        match configured(env@, key@) {
            Some(v) => r matches Some(x) && x@ == v,
            None => r is None,
        },
{
    let mut i: usize = 0;
    assert(env@.subrange(0, env@.len() as int) =~= env@);
    while i < env.len()
        invariant
            i <= env@.len(),
            env_lookup(env@, key@) == env_lookup(env@.subrange(i as int, env@.len() as int), key@),
        decreases env.len() - i,
    {
        assert(env@.subrange(i as int, env@.len() as int).drop_first() =~= env@.subrange(
            i + 1,
            env@.len() as int,
        ));
        if str_eq(env[i].0.as_str(), key) {
            let t = trim(env[i].1.as_str());
            if t.as_str().unicode_len() > 0 {
                return Some(t);
            }
            return None;
        }
        i = i + 1;
    }
    None
}

/// A resolution configured entirely by the environment: grant, scopes and
/// principal all set.
pub fn explicit_native_provider_resolution(env: &Vec<(String, String)>) -> (r: Option<NativeProviderResolution>)
    ensures
        r is Some <==> (configured(env@, PROVIDER_PERMISSION_GRANT_ID_ENV@) is Some && configured(
            env@,
            PROVIDER_PERMISSION_GRANTED_SCOPES_ENV@,
        ) is Some && configured(env@, PROVIDER_PERMISSION_PRINCIPAL_REF_ENV@) is Some),
        r matches Some(x) ==> env_view(x.env@) == env_view(env@) && x.principal_ref@ == configured(
            env@,
            PROVIDER_PERMISSION_PRINCIPAL_REF_ENV@,
        )->0,
{
    let grant = configured_value(env, PROVIDER_PERMISSION_GRANT_ID_ENV);
    let scopes = configured_value(env, PROVIDER_PERMISSION_GRANTED_SCOPES_ENV);
    let principal = configured_value(env, PROVIDER_PERMISSION_PRINCIPAL_REF_ENV);
    match (grant, scopes, principal) {
        (Some(_), Some(_), Some(p)) => Some(NativeProviderResolution { env: clone_env(env), principal_ref: p }),
        _ => None,
    }
}

/// Whether the hosted grant list must be read: the environment does not
/// already name both a grant and its scopes.
pub fn hosted_grants_needed(env: &Vec<(String, String)>) -> (r: bool)
    ensures
        r == !(configured(env@, PROVIDER_PERMISSION_GRANT_ID_ENV@) is Some && configured(
            env@,
            PROVIDER_PERMISSION_GRANTED_SCOPES_ENV@,
        ) is Some),
{
    let grant = configured_value(env, PROVIDER_PERMISSION_GRANT_ID_ENV);
    let scopes = configured_value(env, PROVIDER_PERMISSION_GRANTED_SCOPES_ENV);
    !(grant.is_some() && scopes.is_some())
}

/// The provider a native provider tool expects.
pub fn required_expected_provider(inputs: &JsonObject) -> (r: Result<String, String>)
    ensures
        match lookup(inputs@, "expected_provider"@) {
            Some(JsonModel::Str(s)) if trim_spec(s).len() > 0 => r matches Ok(p) && p@ == trim_spec(s),
            _ => r matches Err(m) && m@ == "native provider tools require expected_provider"@,
        },
{
    match inputs.get("expected_provider") {
        Some(JsonValue::String(s)) => {
            let t = trim(s.as_str());
            if t.as_str().unicode_len() > 0 {
                return Ok(t);
            }
        },
        _ => {},
    }
    Err("native provider tools require expected_provider".to_owned())
}

/// The required scopes a grant lacks, in the order they are required.
pub open spec fn missing_scopes_spec(required: Seq<Seq<char>>, granted: Seq<Seq<char>>) -> Seq<Seq<char>> {
    required.filter(|s: Seq<char>| !granted.contains(s))
}

/// The required scopes that `granted` does not hold.
pub fn missing_scopes(required: &Vec<String>, granted: &Vec<String>) -> (r: Vec<String>)
    ensures
        string_views(r@) == missing_scopes_spec(string_views(required@), string_views(granted@)),
{
    let ghost req = string_views(required@);
    let ghost gra = string_views(granted@);
    let ghost pred = |s: Seq<char>| !gra.contains(s);
    let mut out: Vec<String> = Vec::new();
    let mut i: usize = 0;
    proof {
        reveal(Seq::filter);
        assert(req.subrange(0, 0).filter(pred) =~= Seq::<Seq<char>>::empty());
    }
    while i < required.len()
        invariant
            i <= required@.len(),
            req == string_views(required@),
            gra == string_views(granted@),
            pred == (|s: Seq<char>| !gra.contains(s)),
            string_views(out@) == req.subrange(0, i as int).filter(pred),
        decreases required.len() - i,
    {
        proof {
            reveal(Seq::filter);
            assert(req.subrange(0, i + 1).drop_last() =~= req.subrange(0, i as int));
        }
        let mut held = false;
        let mut j: usize = 0;
        while j < granted.len()
            invariant
                j <= granted@.len(),
                i < required@.len(),
                gra == string_views(granted@),
                held == exists|k: int| 0 <= k < j && #[trigger] gra[k] == required@[i as int]@,
            decreases granted.len() - j,
        {
            proof {
                assert(gra[j as int] == granted@[j as int]@);
            }
            if str_eq(granted[j].as_str(), required[i].as_str()) {
                held = true;
            }
            proof {
                if held {
                    if gra[j as int] == required@[i as int]@ {
                        assert(0 <= j < j + 1 && gra[j as int] == required@[i as int]@);
                    }
                }
            }
            j = j + 1;
        }
        proof {
            if held {
                let k = choose|k: int| 0 <= k < granted@.len() && #[trigger] gra[k] == required@[i as int]@;
                assert(gra.contains(req[i as int]));
            } else {
                assert(!gra.contains(req[i as int]));
            }
        }
        if !held {
            let ghost before = string_views(out@);
            out.push(required[i].clone());
            assert(string_views(out@) =~= before.push(req[i as int]));
        }
        i = i + 1;
    }
    assert(req.subrange(0, required@.len() as int) =~= req);
    out
}

/// A grant that can serve the tool: active, for the provider, the
/// configured one when a grant is configured, and holding every required
/// scope.
pub open spec fn grant_candidate(
    g: HostedProviderGrant,
    provider: Seq<char>,
    required: Seq<Seq<char>>,
    explicit: Option<Seq<char>>,
) -> bool {
    &&& g.status@ == "active"@
    &&& g.provider@ == provider
    &&& (explicit matches Some(e) ==> g.grant_id@ == e)
    &&& missing_scopes_spec(required, string_views(g.scopes@)).len() == 0
}

/// How many grants can serve the tool.
pub open spec fn candidate_count(
    grants: Seq<HostedProviderGrant>,
    provider: Seq<char>,
    required: Seq<Seq<char>>,
    explicit: Option<Seq<char>>,
) -> nat
    decreases grants.len(),
{
    if grants.len() == 0 {
        0
    } else {
        candidate_count(grants.drop_last(), provider, required, explicit) + if grant_candidate(
            grants.last(),
            provider,
            required,
            explicit,
        ) {
            1nat
        } else {
            0nat
        }
    }
}

proof fn lemma_candidate_count_zero(
    grants: Seq<HostedProviderGrant>,
    provider: Seq<char>,
    required: Seq<Seq<char>>,
    explicit: Option<Seq<char>>,
)
    requires
        candidate_count(grants, provider, required, explicit) == 0,
    ensures
        forall|j: int| 0 <= j < grants.len() ==> !grant_candidate(#[trigger] grants[j], provider, required, explicit),
    decreases grants.len(),
{
    if grants.len() > 0 {
        let p = grants.drop_last();
        lemma_candidate_count_zero(p, provider, required, explicit);
        assert forall|j: int| 0 <= j < grants.len() implies !grant_candidate(
            #[trigger] grants[j],
            provider,
            required,
            explicit,
        ) by {
            if j < grants.len() - 1 {
                assert(p[j] == grants[j]);
            }
        }
    }
}

proof fn lemma_candidate_count_positive(
    grants: Seq<HostedProviderGrant>,
    provider: Seq<char>,
    required: Seq<Seq<char>>,
    explicit: Option<Seq<char>>,
    i: int,
)
    requires
        0 <= i < grants.len(),
        grant_candidate(grants[i], provider, required, explicit),
    ensures
        candidate_count(grants, provider, required, explicit) >= 1,
    decreases grants.len(),
{
    if i < grants.len() - 1 {
        assert(grants.drop_last()[i] == grants[i]);
        lemma_candidate_count_positive(grants.drop_last(), provider, required, explicit, i);
    }
}

proof fn lemma_candidate_count_one(
    grants: Seq<HostedProviderGrant>,
    provider: Seq<char>,
    required: Seq<Seq<char>>,
    explicit: Option<Seq<char>>,
    i: int,
)
    requires
        candidate_count(grants, provider, required, explicit) == 1,
        0 <= i < grants.len(),
        grant_candidate(grants[i], provider, required, explicit),
    ensures
        forall|j: int|
            0 <= j < grants.len() && j != i ==> !grant_candidate(#[trigger] grants[j], provider, required, explicit),
    decreases grants.len(),
{
    let p = grants.drop_last();
    if i == grants.len() - 1 {
        lemma_candidate_count_zero(p, provider, required, explicit);
        assert forall|j: int| 0 <= j < grants.len() && j != i implies !grant_candidate(
            #[trigger] grants[j],
            provider,
            required,
            explicit,
        ) by {
            assert(p[j] == grants[j]);
        }
    } else {
        assert(p[i] == grants[i]);
        if grant_candidate(grants.last(), provider, required, explicit) {
            lemma_candidate_count_positive(p, provider, required, explicit, i);
        }
        lemma_candidate_count_one(p, provider, required, explicit, i);
        assert forall|j: int| 0 <= j < grants.len() && j != i implies !grant_candidate(
            #[trigger] grants[j],
            provider,
            required,
            explicit,
        ) by {
            if j < grants.len() - 1 {
                assert(p[j] == grants[j]);
            }
        }
    }
}

/// A scope is missing exactly when it is required and not granted; so
/// nothing is missing exactly when every required scope is granted.
pub proof fn lemma_missing_scopes_law(required: Seq<Seq<char>>, granted: Seq<Seq<char>>)
    ensures
        forall|x: Seq<char>|
            #[trigger] missing_scopes_spec(required, granted).contains(x) <==> required.contains(x)
                && !granted.contains(x),
        missing_scopes_spec(required, granted).len() == 0 <==> forall|k: int|
            0 <= k < required.len() ==> granted.contains(#[trigger] required[k]),
{
    broadcast use vstd::seq_lib::group_filter_ensures;

    let pred = |s: Seq<char>| !granted.contains(s);
    let m = missing_scopes_spec(required, granted);
    assert forall|x: Seq<char>| #[trigger] m.contains(x) <==> required.contains(x) && !granted.contains(
        x,
    ) by {
        if m.contains(x) {
            required.lemma_filter_contains_rev(pred, x);
            let k = choose|k: int| 0 <= k < m.len() && m[k] == x;
            assert(pred(m[k]));
        }
        if required.contains(x) && !granted.contains(x) {
            let k = choose|k: int| 0 <= k < required.len() && required[k] == x;
            assert(pred(required[k]));
        }
    }
    if m.len() == 0 {
        assert forall|k: int| 0 <= k < required.len() implies granted.contains(#[trigger] required[k]) by {
            if !granted.contains(required[k]) {
                assert(pred(required[k]));
                assert(m.contains(required[k]));
            }
        }
    }
    if forall|k: int| 0 <= k < required.len() ==> granted.contains(#[trigger] required[k]) {
        if m.len() > 0 {
            assert(m.contains(m[0]));
            let k = choose|k: int| 0 <= k < required.len() && required[k] == m[0];
        }
    }
}

proof fn lemma_candidate_count_of_sole(
    grants: Seq<HostedProviderGrant>,
    provider: Seq<char>,
    required: Seq<Seq<char>>,
    explicit: Option<Seq<char>>,
    i: int,
)
    requires
        0 <= i <= grants.len(),
        forall|j: int|
            0 <= j < grants.len() && j != i ==> !grant_candidate(#[trigger] grants[j], provider, required, explicit),
    ensures
        candidate_count(grants, provider, required, explicit) == (if i < grants.len() && grant_candidate(
            grants[i],
            provider,
            required,
            explicit,
        ) {
            1nat
        } else {
            0nat
        }),
    decreases grants.len(),
{
    if grants.len() > 0 {
        let p = grants.drop_last();
        let n = grants.len() - 1;
        assert forall|j: int| 0 <= j < p.len() && j != i implies !grant_candidate(
            #[trigger] p[j],
            provider,
            required,
            explicit,
        ) by {
            assert(p[j] == grants[j]);
        }
        if i >= n {
            lemma_candidate_count_of_sole(p, provider, required, explicit, p.len() as int);
        } else {
            lemma_candidate_count_of_sole(p, provider, required, explicit, i);
            assert(p[i] == grants[i]);
        }
    }
}

/// A grant serves the tool exactly when it is active, for the provider,
/// the configured grant when one is configured, and holds every required
/// scope.
pub proof fn lemma_grant_candidate_law(
    g: HostedProviderGrant,
    provider: Seq<char>,
    required: Seq<Seq<char>>,
    explicit: Option<Seq<char>>,
)
    ensures
        grant_candidate(g, provider, required, explicit) <==> (g.status@ == "active"@ && g.provider@
            == provider && (explicit matches Some(e) ==> g.grant_id@ == e) && forall|k: int|
            0 <= k < required.len() ==> string_views(g.scopes@).contains(#[trigger] required[k])),
{
    lemma_missing_scopes_law(required, string_views(g.scopes@));
}

/// No grant serves exactly when the count of serving grants is zero.
pub proof fn lemma_no_grant_serves(
    grants: Seq<HostedProviderGrant>,
    provider: Seq<char>,
    required: Seq<Seq<char>>,
    explicit: Option<Seq<char>>,
)
    ensures
        candidate_count(grants, provider, required, explicit) == 0 <==> forall|j: int|
            0 <= j < grants.len() ==> !grant_candidate(#[trigger] grants[j], provider, required, explicit),
{
    if forall|j: int| 0 <= j < grants.len() ==> !grant_candidate(#[trigger] grants[j], provider, required, explicit) {
        lemma_candidate_count_of_sole(grants, provider, required, explicit, grants.len() as int);
    }
    if candidate_count(grants, provider, required, explicit) == 0 {
        lemma_candidate_count_zero(grants, provider, required, explicit);
    }
}

/// The grant choice in terms of which grants serve: one is chosen exactly
/// when a single grant serves, and the choice is refused as ambiguous
/// exactly when two different grants serve.
#[verifier::rlimit(60)]
pub proof fn lemma_grant_selection_law(
    grants: Seq<HostedProviderGrant>,
    provider: Seq<char>,
    required: Seq<Seq<char>>,
    explicit: Option<Seq<char>>,
)
    ensures
        candidate_count(grants, provider, required, explicit) == 1 <==> exists|i: int|
            0 <= i < grants.len() && grant_candidate(#[trigger] grants[i], provider, required, explicit)
                && forall|j: int|
                0 <= j < grants.len() && j != i ==> !grant_candidate(#[trigger] grants[j], provider, required, explicit),
        candidate_count(grants, provider, required, explicit) > 1 <==> exists|i: int, j: int|
            0 <= i < j < grants.len() && grant_candidate(#[trigger] grants[i], provider, required, explicit)
                && grant_candidate(#[trigger] grants[j], provider, required, explicit),
{
    let n = candidate_count(grants, provider, required, explicit);
    lemma_no_grant_serves(grants, provider, required, explicit);
    if exists|i: int|
        0 <= i < grants.len() && grant_candidate(#[trigger] grants[i], provider, required, explicit) && forall|j: int|
            0 <= j < grants.len() && j != i ==> !grant_candidate(#[trigger] grants[j], provider, required, explicit) {
        let i = choose|i: int|
            0 <= i < grants.len() && grant_candidate(#[trigger] grants[i], provider, required, explicit) && forall|j: int|
                0 <= j < grants.len() && j != i ==> !grant_candidate(#[trigger] grants[j], provider, required, explicit);
        lemma_candidate_count_of_sole(grants, provider, required, explicit, i);
    }
    if n >= 1 {
        let i = choose|i: int| 0 <= i < grants.len() && grant_candidate(#[trigger] grants[i], provider, required, explicit);
        if n == 1 {
            lemma_candidate_count_one(grants, provider, required, explicit, i);
        } else {
            if forall|j: int|
                0 <= j < grants.len() && j != i ==> !grant_candidate(#[trigger] grants[j], provider, required, explicit) {
                lemma_candidate_count_of_sole(grants, provider, required, explicit, i);
            }
            let j = choose|j: int|
                0 <= j < grants.len() && j != i && grant_candidate(#[trigger] grants[j], provider, required, explicit);
            if i < j {
                assert(grant_candidate(grants[i], provider, required, explicit) && grant_candidate(grants[j], provider, required, explicit));
            } else {
                assert(grant_candidate(grants[j], provider, required, explicit) && grant_candidate(grants[i], provider, required, explicit));
            }
        }
    }
    if exists|i: int, j: int|
        0 <= i < j < grants.len() && grant_candidate(#[trigger] grants[i], provider, required, explicit)
            && grant_candidate(#[trigger] grants[j], provider, required, explicit) {
        let (i, j) = choose|i: int, j: int|
            0 <= i < j < grants.len() && grant_candidate(#[trigger] grants[i], provider, required, explicit)
                && grant_candidate(#[trigger] grants[j], provider, required, explicit);
        lemma_candidate_count_positive(grants, provider, required, explicit, i);
        if n == 1 {
            lemma_candidate_count_one(grants, provider, required, explicit, i);
        }
    }
}

pub open spec fn scope_list(required: Seq<Seq<char>>) -> Seq<char> {
    "["@ + joined(required, ", "@) + "]"@
}

/// The grant a native provider tool runs under: exactly one candidate must
/// remain; none, or several, is refused.
pub fn select_hosted_provider_grant(
    grants: &Vec<HostedProviderGrant>,
    provider: &str,
    required_scopes: &Vec<String>,
    explicit_grant: Option<&str>,
) -> (r: Result<usize, String>)
    ensures
        ({
            let explicit = match explicit_grant {
                Some(e) => Some(e@),
                None => None,
            };
            let n = candidate_count(grants@, provider@, string_views(required_scopes@), explicit);
            let scopes = scope_list(string_views(required_scopes@));
            if n == 1 {
                r matches Ok(i) && 0 <= i < grants@.len() && grant_candidate(
                    grants@[i as int],
                    provider@,
                    string_views(required_scopes@),
                    explicit,
                ) && forall|j: int|
                    0 <= j < grants@.len() && j != i ==> !grant_candidate(
                        #[trigger] grants@[j],
                        provider@,
                        string_views(required_scopes@),
                        explicit,
                    )
            } else if n == 0 && explicit is Some {
                r matches Err(m) && m@ == "configured provider grant does not authorize "@ + provider@
                    + " scopes "@ + scopes
            } else if n == 0 {
                r matches Err(m) && m@ == "no active Runx Connect grant authorizes "@ + provider@
                    + " scopes "@ + scopes
            } else {
                r matches Err(m) && m@ == "multiple active Runx Connect grants authorize "@ + provider@
                    + " scopes "@ + scopes + "; select one with "@ + PROVIDER_PERMISSION_GRANT_ID_ENV@
            }
        }),
{
    let ghost explicit = match explicit_grant {
        Some(e) => Some(e@),
        None => None,
    };
    let ghost req = string_views(required_scopes@);
    let mut count: usize = 0;
    let mut first: usize = 0;
    let mut i: usize = 0;
    assert(grants@.subrange(0, 0) =~= Seq::<HostedProviderGrant>::empty());
    while i < grants.len()
        invariant
            i <= grants@.len(),
            req == string_views(required_scopes@),
            explicit == (match explicit_grant {
                Some(e) => Some(e@),
                None => None::<Seq<char>>,
            }),
            count == candidate_count(grants@.subrange(0, i as int), provider@, req, explicit),
            count <= i,
            count > 0 ==> first < i && grant_candidate(grants@[first as int], provider@, req, explicit),
        decreases grants.len() - i,
    {
        assert(grants@.subrange(0, i + 1).drop_last() =~= grants@.subrange(0, i as int));
        let g = &grants[i];
        let explicit_ok = match explicit_grant {
            Some(e) => str_eq(g.grant_id.as_str(), e),
            None => true,
        };
        let candidate = str_eq(g.status.as_str(), "active") && str_eq(g.provider.as_str(), provider)
            && explicit_ok && missing_scopes(required_scopes, &g.scopes).len() == 0;
        proof {
            assert(candidate == grant_candidate(grants@[i as int], provider@, req, explicit));
        }
        if candidate {
            if count == 0 {
                first = i;
            }
            count = count + 1;
        }
        i = i + 1;
    }
    assert(grants@.subrange(0, grants@.len() as int) =~= grants@);
    if count == 1 {
        proof {
            lemma_candidate_count_one(grants@, provider@, req, explicit, first as int);
        }
        return Ok(first);
    }
    let list = concat("[", join(required_scopes, ", ").as_str());
    let scopes = concat(list.as_str(), "]");
    if count == 0 && explicit_grant.is_some() {
        let a = concat("configured provider grant does not authorize ", provider);
        let b = concat(a.as_str(), " scopes ");
        Err(concat(b.as_str(), scopes.as_str()))
    } else if count == 0 {
        let a = concat("no active Runx Connect grant authorizes ", provider);
        let b = concat(a.as_str(), " scopes ");
        Err(concat(b.as_str(), scopes.as_str()))
    } else {
        let a = concat("multiple active Runx Connect grants authorize ", provider);
        let b = concat(a.as_str(), " scopes ");
        let c = concat(b.as_str(), scopes.as_str());
        let d = concat(c.as_str(), "; select one with ");
        Err(concat(d.as_str(), PROVIDER_PERMISSION_GRANT_ID_ENV))
    }
}

/// The hosted resolution of a provider tool, once the principal is known and
/// (when `hosted_grants_needed`) the grants are listed: a configured grant
/// and scopes are kept; otherwise the single serving grant is bound into
/// the environment.
pub fn resolve_hosted_provider_env(
    env: Vec<(String, String)>,
    principal_id: &str,
    grants: &Vec<HostedProviderGrant>,
    provider: &str,
    required_scopes: &Vec<String>,
) -> (r: Result<NativeProviderResolution, String>)
    ensures
        !(configured(env@, PROVIDER_PERMISSION_GRANT_ID_ENV@) is Some && configured(
            env@,
            PROVIDER_PERMISSION_GRANTED_SCOPES_ENV@,
        ) is Some) ==> ({
            let explicit = configured(env@, PROVIDER_PERMISSION_GRANT_ID_ENV@);
            let n = candidate_count(grants@, provider@, string_views(required_scopes@), explicit);
            &&& (n == 1 <==> r is Ok)
            &&& (r matches Ok(x) ==> x.principal_ref@ == "runx:principal:"@ + principal_id@ && exists|i: int|
                0 <= i < grants@.len() && grant_candidate(
                    #[trigger] grants@[i],
                    provider@,
                    string_views(required_scopes@),
                    explicit,
                ) && forall|k: Seq<char>| #[trigger] env_lookup(x.env@, k) == if k
                    == PROVIDER_PERMISSION_GRANT_ID_ENV@ {
                    Some(grants@[i].grant_id@)
                } else if k == PROVIDER_PERMISSION_GRANTED_SCOPES_ENV@ {
                    Some(joined(string_views(grants@[i].scopes@), ","@))
                } else {
                    env_lookup(env@, k)
                })
        }),
        (configured(env@, PROVIDER_PERMISSION_GRANT_ID_ENV@) is Some && configured(
            env@,
            PROVIDER_PERMISSION_GRANTED_SCOPES_ENV@,
        ) is Some) ==> (r matches Ok(x) && x.env@ == env@ && x.principal_ref@ == "runx:principal:"@
            + principal_id@),
{
    let principal_ref = concat("runx:principal:", principal_id);
    let explicit_grant = configured_value(&env, PROVIDER_PERMISSION_GRANT_ID_ENV);
    if !hosted_grants_needed(&env) {
        return Ok(NativeProviderResolution { env, principal_ref });
    }
    let explicit = match &explicit_grant {
        Some(g) => Some(g.as_str()),
        None => None,
    };
    let selected = select_hosted_provider_grant(grants, provider, required_scopes, explicit);
    match selected {
        Err(message) => Err(message),
        Ok(i) => {
            let mut env = env;
            let ghost env0 = env@;
            env_set(&mut env, PROVIDER_PERMISSION_GRANT_ID_ENV, grants[i].grant_id.clone());
            let ghost env1 = env@;
            env_set(&mut env, PROVIDER_PERMISSION_GRANTED_SCOPES_ENV, join(&grants[i].scopes, ","));
            proof {
                assert forall|k: Seq<char>| #[trigger] env_lookup(env@, k) == if k
                    == PROVIDER_PERMISSION_GRANT_ID_ENV@ {
                    Some(grants@[i as int].grant_id@)
                } else if k == PROVIDER_PERMISSION_GRANTED_SCOPES_ENV@ {
                    Some(joined(string_views(grants@[i as int].scopes@), ","@))
                } else {
                    env_lookup(env0, k)
                } by {
                    assert(env_lookup(env@, k) == if k == PROVIDER_PERMISSION_GRANTED_SCOPES_ENV@ {
                        Some(joined(string_views(grants@[i as int].scopes@), ","@))
                    } else {
                        env_lookup(env1, k)
                    });
                    assert(env_lookup(env1, k) == if k == PROVIDER_PERMISSION_GRANT_ID_ENV@ {
                        Some(grants@[i as int].grant_id@)
                    } else {
                        env_lookup(env0, k)
                    });
                    assert(PROVIDER_PERMISSION_GRANT_ID_ENV@ != PROVIDER_PERMISSION_GRANTED_SCOPES_ENV@) by {
                        reveal_strlit("RUNX_PROVIDER_PERMISSION_GRANT_ID");
                        reveal_strlit("RUNX_PROVIDER_PERMISSION_GRANTED_SCOPES");
                        assert(PROVIDER_PERMISSION_GRANT_ID_ENV@.len() != PROVIDER_PERMISSION_GRANTED_SCOPES_ENV@.len());
                    }
                }
            }
            Ok(NativeProviderResolution { env, principal_ref })
        },
    }
}

} // verus!
