//! What an execution closure reports of a runner: the component each kind
//! of source contributes, whether a step references a registry skill, the
//! walk over a runner's sources that gathers components, edges and agent
//! acts, the one-line summary, and the closure digest that binds every
//! package and every unresolved edge.
use vstd::prelude::*;

use crate::string_set::StringSet;
use crate::package_source::{append_digest_field, digest_field, hex_lower, push_bytes, sha256_digest, sha256_prefixed};
use crate::text::{concat, decimal, decimal_digits, join, joined, starts_with, starts_with_spec, string_views};

verus! {

/// The kind of a runner's or step's source.
#[derive(Clone, Copy, Debug, PartialEq, Eq)]
pub enum SourceKind {
    Graph,
    Agent,
    AgentStep,
    JavaScript,
    CliTool,
    Mcp,
    A2a,
    ExternalAdapter,
    ThreadOutboxProvider,
}

/// The component a leaf source contributes; graphs and agents contribute
/// none (graphs are walked, agents counted).
pub open spec fn source_component_spec(kind: SourceKind, command: Option<Seq<char>>, tool: Option<Seq<char>>) -> Option<
    Seq<char>,
> {
    match kind {
        SourceKind::Graph | SourceKind::Agent | SourceKind::AgentStep => None,
        SourceKind::JavaScript => Some("javascript"@),
        SourceKind::CliTool => match command {
            Some(c) => Some("cli-tool:"@ + c),
            None => Some("cli-tool"@),
        },
        SourceKind::Mcp => match tool {
            Some(t) => Some("mcp:"@ + t),
            None => Some("mcp"@),
        },
        SourceKind::A2a => Some("a2a"@),
        SourceKind::ExternalAdapter => Some("external-adapter"@),
        SourceKind::ThreadOutboxProvider => Some("thread-outbox-provider"@),
    }
}

/// The component a leaf source contributes.
pub fn source_component(kind: SourceKind, command: Option<&str>, tool: Option<&str>) -> (r: Option<String>)
    ensures
        match source_component_spec(
            kind,
            match command {
                Some(c) => Some(c@),
                None => None,
            },
            match tool {
                Some(t) => Some(t@),
                None => None,
            },
        ) {
            Some(c) => r matches Some(x) && x@ == c,
            None => r is None,
        },
{
    match kind {
        SourceKind::Graph | SourceKind::Agent | SourceKind::AgentStep => None,
        SourceKind::JavaScript => Some("javascript".to_owned()),
        SourceKind::CliTool => match command {
            Some(c) => Some(concat("cli-tool:", c)),
            None => Some("cli-tool".to_owned()),
        },
        SourceKind::Mcp => match tool {
            Some(t) => Some(concat("mcp:", t)),
            None => Some("mcp".to_owned()),
        },
        SourceKind::A2a => Some("a2a".to_owned()),
        SourceKind::ExternalAdapter => Some("external-adapter".to_owned()),
        SourceKind::ThreadOutboxProvider => Some("thread-outbox-provider".to_owned()),
    }
}

/// A step skill reference that names the registry.
pub open spec fn registry_ref(r: Seq<char>) -> bool {
    starts_with_spec(r, "registry:"@) || starts_with_spec(r, "runx-registry:"@) || starts_with_spec(
        r,
        "runx://skill/"@,
    )
}

/// Whether a step's skill reference names the registry.
pub fn is_registry_step_ref(reference: &str) -> (r: bool)
    ensures
        r == registry_ref(reference@),
{
    starts_with(reference, "registry:") || starts_with(reference, "runx-registry:") || starts_with(
        reference,
        "runx://skill/",
    )
}

/// The agent part of a summary.
pub open spec fn agent_summary(agent_acts: nat, declared_artifact: bool) -> Option<Seq<char>> {
    if agent_acts == 0 {
        None
    } else if agent_acts == 1 && declared_artifact {
        Some("1 agent act -> declared artifact"@)
    } else if declared_artifact {
        Some(decimal_digits(agent_acts) + " agent acts -> declared artifact"@)
    } else if agent_acts == 1 {
        Some("1 agent act"@)
    } else {
        Some(decimal_digits(agent_acts) + " agent acts"@)
    }
}

/// The summary: the components, then the agent acts, or `none`.
pub open spec fn execution_summary_spec(components: Seq<Seq<char>>, agent_acts: nat, declared_artifact: bool) -> Seq<
    char,
> {
    match agent_summary(agent_acts, declared_artifact) {
        Some(agent) => if components.len() == 0 {
            agent
        } else {
            joined(components, ", "@) + "; "@ + agent
        },
        None => if components.len() == 0 {
            "none"@
        } else {
            joined(components, ", "@)
        },
    }
}

/// The one-line summary of a closure.
pub fn execution_summary(components: &Vec<String>, agent_acts: usize, declared_artifact: bool) -> (r: String)
    ensures
        r@ == execution_summary_spec(string_views(components@), agent_acts as nat, declared_artifact),
{
    let agent: Option<String> = if agent_acts == 0 {
        None
    } else if agent_acts == 1 && declared_artifact {
        Some("1 agent act -> declared artifact".to_owned())
    } else if declared_artifact {
        Some(concat(decimal(agent_acts).as_str(), " agent acts -> declared artifact"))
    } else if agent_acts == 1 {
        Some("1 agent act".to_owned())
    } else {
        Some(concat(decimal(agent_acts).as_str(), " agent acts"))
    };
    match agent {
        Some(a) => {
            if components.len() == 0 {
                a
            } else {
                let list = join(components, ", ");
                let head = concat(list.as_str(), "; ");
                concat(head.as_str(), a.as_str())
            }
        },
        None => {
            if components.len() == 0 {
                "none".to_owned()
            } else {
                join(components, ", ")
            }
        },
    }
}

/// A package a closure binds: skill, runner and package digest.
#[derive(Clone, Debug, PartialEq, Eq)]
pub struct ExecutionPackageBinding {
    pub skill: String,
    pub runner: String,
    pub package_digest: String,
    pub source_path: String,
    pub source_files: Vec<String>,
}

pub open spec fn utf8(s: Seq<char>) -> Seq<u8> {
    vstd::utf8::encode_utf8(s)
}

/// The bound packages' fields, in order.
pub open spec fn binding_fields(b: Seq<ExecutionPackageBinding>) -> Seq<u8>
    decreases b.len(),
{
    if b.len() == 0 {
        Seq::empty()
    } else {
        binding_fields(b.drop_last()) + digest_field(utf8(b.last().skill@)) + digest_field(
            utf8(b.last().runner@),
        ) + digest_field(utf8(b.last().package_digest@))
    }
}

/// The unresolved edges' fields, in order.
pub open spec fn unresolved_fields(e: Seq<Seq<char>>) -> Seq<u8>
    decreases e.len(),
{
    if e.len() == 0 {
        Seq::empty()
    } else {
        unresolved_fields(e.drop_last()) + digest_field(utf8("unresolved"@)) + digest_field(utf8(e.last()))
    }
}

/// The canonical encoding a closure digest hashes.
pub open spec fn closure_encoding(
    runtime_release: Seq<char>,
    bindings: Seq<ExecutionPackageBinding>,
    unresolved: Seq<Seq<char>>,
) -> Seq<u8> {
    utf8("runx.execution-closure.v1\0"@) + digest_field(utf8(runtime_release)) + binding_fields(bindings)
        + unresolved_fields(unresolved)
}

/// The digest of a closure under a runtime release: SHA-256 of its
/// canonical encoding.
pub fn execution_closure_digest(
    runtime_release: &str,
    package_bindings: &Vec<ExecutionPackageBinding>,
    unresolved_skill_edges: &Vec<String>,
) -> (r: String)
    ensures
        r@ == "sha256:"@ + hex_lower(
            sha256_digest(closure_encoding(runtime_release@, package_bindings@, string_views(unresolved_skill_edges@))),
        ),
{
    let mut canonical: Vec<u8> = Vec::new();
    push_bytes(&mut canonical, "runx.execution-closure.v1\0".as_bytes());
    append_digest_field(&mut canonical, runtime_release.as_bytes());
    let ghost head = canonical@;
    let mut i: usize = 0;
    assert(package_bindings@.subrange(0, 0) =~= Seq::<ExecutionPackageBinding>::empty());
    while i < package_bindings.len()
        invariant
            i <= package_bindings@.len(),
            canonical@ == head + binding_fields(package_bindings@.subrange(0, i as int)),
        decreases package_bindings.len() - i,
    {
        assert(package_bindings@.subrange(0, i + 1).drop_last() =~= package_bindings@.subrange(0, i as int));
        let b = &package_bindings[i];
        append_digest_field(&mut canonical, b.skill.as_str().as_bytes());
        append_digest_field(&mut canonical, b.runner.as_str().as_bytes());
        append_digest_field(&mut canonical, b.package_digest.as_str().as_bytes());
        assert(canonical@ =~= head + binding_fields(package_bindings@.subrange(0, i + 1)));
        i = i + 1;
    }
    assert(package_bindings@.subrange(0, package_bindings@.len() as int) =~= package_bindings@);
    let ghost mid = canonical@;
    let ghost edges = string_views(unresolved_skill_edges@);
    let mut j: usize = 0;
    assert(edges.subrange(0, 0) =~= Seq::<Seq<char>>::empty());
    while j < unresolved_skill_edges.len()
        invariant
            j <= unresolved_skill_edges@.len(),
            edges == string_views(unresolved_skill_edges@),
            canonical@ == mid + unresolved_fields(edges.subrange(0, j as int)),
        decreases unresolved_skill_edges.len() - j,
    {
        assert(edges.subrange(0, j + 1).drop_last() =~= edges.subrange(0, j as int));
        append_digest_field(&mut canonical, "unresolved".as_bytes());
        append_digest_field(&mut canonical, unresolved_skill_edges[j].as_str().as_bytes());
        assert(canonical@ =~= mid + unresolved_fields(edges.subrange(0, j + 1)));
        j = j + 1;
    }
    assert(edges.subrange(0, edges.len() as int) =~= edges);
    assert(canonical@ =~= closure_encoding(runtime_release@, package_bindings@, edges));
    sha256_prefixed(canonical.as_slice())
}

// ---------------------------------------------------------------------------
// The walk's accumulator
// ---------------------------------------------------------------------------
/// What walking a runner's sources has gathered: the components, the skill
/// edges and which of them stay unresolved, the direct external edges, the
/// agent acts and whether one of them declares an artifact. The walk
/// itself is `walk_source`; loading nested packages, and walking each
/// nested runner once, are the caller's, who hands the walk the sources as
/// loaded.
#[derive(Debug)]
pub struct ClosureAccumulator {
    pub components: StringSet,
    pub skill_edges: StringSet,
    pub unresolved_skill_edges: StringSet,
    /// Direct edges to skills outside the package, as (skill, runner); a
    /// pair may be listed more than once.
    pub direct_external_skill_edges: Vec<(String, String)>,
    pub agent_acts: usize,
    pub declared_artifact: bool,
}

impl ClosureAccumulator {
    /// Nothing gathered.
    pub fn new() -> (r: Self)
        ensures
            r.components@ == Set::<Seq<char>>::empty(),
            r.skill_edges@ == Set::<Seq<char>>::empty(),
            r.unresolved_skill_edges@ == Set::<Seq<char>>::empty(),
            r.agent_acts == 0,
            !r.declared_artifact,
            r.direct_external_skill_edges@.len() == 0,
    {
        ClosureAccumulator {
            components: StringSet::new(),
            skill_edges: StringSet::new(),
            unresolved_skill_edges: StringSet::new(),
            direct_external_skill_edges: Vec::new(),
            agent_acts: 0,
            declared_artifact: false,
        }
    }

    /// Records a source that is not a graph: an agent act is counted (the
    /// count saturates) and marks a declared artifact; any other kind adds
    /// its component.
    pub fn record_leaf_source(
        &mut self,
        kind: SourceKind,
        command: Option<&str>,
        tool: Option<&str>,
        declared_artifact: bool,
    )
        requires
            kind != SourceKind::Graph,
        ensures
            final(self).skill_edges@ == old(self).skill_edges@,
            final(self).direct_external_skill_edges@ == old(self).direct_external_skill_edges@,
            final(self).unresolved_skill_edges@ == old(self).unresolved_skill_edges@,
            (kind == SourceKind::Agent || kind == SourceKind::AgentStep) ==> {
                &&& final(self).agent_acts == if old(self).agent_acts == usize::MAX {
                    usize::MAX as int
                } else {
                    old(self).agent_acts + 1
                }
                &&& final(self).declared_artifact == (old(self).declared_artifact || declared_artifact)
                &&& final(self).components@ == old(self).components@
            },
            !(kind == SourceKind::Agent || kind == SourceKind::AgentStep) ==> {
                &&& final(self).agent_acts == old(self).agent_acts
                &&& final(self).declared_artifact == old(self).declared_artifact
                &&& final(self).components@ == old(self).components@.insert(
                    source_component_spec(
                        kind,
                        match command {
                            Some(c) => Some(c@),
                            None => None,
                        },
                        match tool {
                            Some(t) => Some(t@),
                            None => None,
                        },
                    )->0,
                )
            },
    {
        match kind {
            SourceKind::Agent | SourceKind::AgentStep => {
                self.agent_acts = self.agent_acts.saturating_add(1);
                self.declared_artifact = self.declared_artifact || declared_artifact;
            },
            _ => {
                match source_component(kind, command, tool) {
                    Some(c) => self.components.insert(c),
                    None => {},
                }
            },
        }
    }

    /// Records a graph step: its tool as a component, and its skill edge,
    /// which stays unresolved when no nested package was loaded for it.
    pub fn record_step(&mut self, tool: Option<&str>, edge: Option<&str>, resolved: bool)
        ensures
            final(self).components@ == match tool {
                Some(t) => old(self).components@.insert("tool:"@ + t@),
                None => old(self).components@,
            },
            final(self).skill_edges@ == match edge {
                Some(e) => old(self).skill_edges@.insert(e@),
                None => old(self).skill_edges@,
            },
            final(self).unresolved_skill_edges@ == match edge {
                Some(e) => if resolved {
                    old(self).unresolved_skill_edges@
                } else {
                    old(self).unresolved_skill_edges@.insert(e@)
                },
                None => old(self).unresolved_skill_edges@,
            },
            final(self).agent_acts == old(self).agent_acts,
            final(self).direct_external_skill_edges@ == old(self).direct_external_skill_edges@,
            final(self).declared_artifact == old(self).declared_artifact,
    {
        match tool {
            Some(t) => self.components.insert(concat("tool:", t)),
            None => {},
        }
        match edge {
            Some(e) => {
                self.skill_edges.insert(e.to_owned());
                if !resolved {
                    self.unresolved_skill_edges.insert(e.to_owned());
                }
            },
            None => {},
        }
    }
}

/// A step's skill reference that cannot be loaded here: a `$` reference,
/// or a registry reference when there is no environment to resolve it in.
pub fn step_reference_unresolvable(reference: &str, has_env: bool) -> (r: bool)
    ensures
        r == ((reference@.len() > 0 && reference@[0] == '$') || (registry_ref(reference@) && !has_env)),
{
    let chars = crate::text::chars_of(reference);
    (chars.len() > 0 && chars[0] == '$') || (is_registry_step_ref(reference) && !has_env)
}

/// A skill edge: the skill and the runner, joined by `#`; an unloaded
/// reference names its requested runner, `default` when none.
pub fn skill_edge(skill: &str, runner: Option<&str>) -> (r: String)
    ensures
        r@ == skill@ + "#"@ + match runner {
            Some(n) => n@,
            None => "default"@,
        },
{
    let a = concat(skill, "#");
    match runner {
        Some(n) => concat(a.as_str(), n),
        None => concat(a.as_str(), "default"),
    }
}

/// The direct external edge a step adds, if any: a loaded skill outside
/// the package's root, by its name and runner; or an unloaded reference
/// with a static external name, with the step's runner (`default` when
/// none).
pub fn direct_external_skill_edge(
    nested: Option<(&str, &str, bool)>,
    static_external_name: Option<&str>,
    step_runner: Option<&str>,
) -> (r: Option<(String, String)>)
    ensures
        match nested {
            Some((skill, runner, inside_root)) => if inside_root {
                r is None
            } else {
                r matches Some((s, n)) && s@ == skill@ && n@ == runner@
            },
            None => match static_external_name {
                Some(name) => r matches Some((s, n)) && s@ == name@ && n@ == match step_runner {
                    Some(x) => x@,
                    None => "default"@,
                },
                None => r is None,
            },
        },
{
    match nested {
        Some((skill, runner, inside_root)) => {
            if inside_root {
                None
            } else {
                Some((skill.to_owned(), runner.to_owned()))
            }
        },
        None => match static_external_name {
            Some(name) => Some(
                (
                    name.to_owned(),
                    match step_runner {
                        Some(x) => x.to_owned(),
                        None => "default".to_owned(),
                    },
                ),
            ),
            None => None,
        },
    }
}

/// A step's skill reference as resolved for the walk: its edge, whether a
/// package was loaded for it, the direct external edge it adds (see
/// `direct_external_skill_edge`), and the nested runner's source when that
/// runner is walked here (loaded, and not walked before).
pub struct WalkSkill {
    pub edge: String,
    pub resolved: bool,
    pub external: Option<(String, String)>,
    pub nested: Option<Box<WalkSource>>,
    pub nested_declares_artifacts: bool,
}

/// A graph step as the walk sees it.
pub struct WalkStep {
    pub tool: Option<String>,
    pub skill: Option<WalkSkill>,
    pub run: Option<Box<WalkSource>>,
    pub declares_artifacts: bool,
}

/// A source as the walk sees it: its kind, command and tool, and for a
/// graph its steps (none when a graph source has no graph).
pub struct WalkSource {
    pub kind: SourceKind,
    pub command: Option<String>,
    pub tool: Option<String>,
    pub steps: Option<Vec<WalkStep>>,
}

/// What a walk gathers.
pub struct Contribution {
    pub components: Set<Seq<char>>,
    pub skill_edges: Set<Seq<char>>,
    pub unresolved: Set<Seq<char>>,
    pub direct_edges: Set<(Seq<char>, Seq<char>)>,
    pub agent_acts: nat,
    pub declared_artifact: bool,
}

pub open spec fn nothing() -> Contribution {
    Contribution {
        components: Set::empty(),
        skill_edges: Set::empty(),
        unresolved: Set::empty(),
        direct_edges: Set::empty(),
        agent_acts: 0,
        declared_artifact: false,
    }
}

pub open spec fn combine(a: Contribution, b: Contribution) -> Contribution {
    Contribution {
        components: a.components.union(b.components),
        skill_edges: a.skill_edges.union(b.skill_edges),
        unresolved: a.unresolved.union(b.unresolved),
        direct_edges: a.direct_edges.union(b.direct_edges),
        agent_acts: a.agent_acts + b.agent_acts,
        declared_artifact: a.declared_artifact || b.declared_artifact,
    }
}

pub open spec fn opt_seq(o: Option<String>) -> Option<Seq<char>> {
    match o {
        Some(s) => Some(s@),
        None => None,
    }
}

/// What walking `src` gathers; none when a graph source has no graph.
/// `declared` is whether the source's runner or step declares artifacts;
/// `direct` whether its skill edges are direct ones (not under a nested
/// runner).
pub open spec fn source_contribution(src: WalkSource, declared: bool, direct: bool) -> Option<
    Contribution,
>
    decreases src, 0int,
{
    match src.kind {
        SourceKind::Graph => match src.steps {
            Some(steps) => steps_contribution(steps, steps@.len() as int, direct),
            None => None,
        },
        SourceKind::Agent | SourceKind::AgentStep => Some(
            Contribution {
                components: Set::empty(),
                skill_edges: Set::empty(),
                unresolved: Set::empty(),
                direct_edges: Set::empty(),
                agent_acts: 1,
                declared_artifact: declared,
            },
        ),
        _ => Some(
            Contribution {
                components: set![
                    source_component_spec(src.kind, opt_seq(src.command), opt_seq(src.tool))->0,
                ],
                skill_edges: Set::empty(),
                unresolved: Set::empty(),
                direct_edges: Set::empty(),
                agent_acts: 0,
                declared_artifact: false,
            },
        ),
    }
}

/// What walking the first `n` steps gathers.
pub open spec fn steps_contribution(steps: Vec<WalkStep>, n: int, direct: bool) -> Option<
    Contribution,
>
    decreases steps, n,
{
    if n <= 0 || n > steps@.len() {
        Some(nothing())
    } else {
        proof {
            vstd::std_specs::vec::axiom_vec_index_decreases(steps, n - 1);
        }
        match (steps_contribution(steps, n - 1, direct), step_contribution(steps@[n - 1], direct)) {
            (Some(a), Some(b)) => Some(combine(a, b)),
            _ => None,
        }
    }
}

/// What one step gathers by itself: its tool, its skill edge (unresolved
/// when no package was loaded for it), and its direct external edge when
/// the walk is direct.
pub open spec fn step_own(step: WalkStep, direct: bool) -> Contribution {
    Contribution {
        components: match step.tool {
            Some(t) => set!["tool:"@ + t@],
            None => Set::empty(),
        },
        skill_edges: match step.skill {
            Some(k) => set![k.edge@],
            None => Set::empty(),
        },
        unresolved: match step.skill {
            Some(k) => if k.resolved {
                Set::empty()
            } else {
                set![k.edge@]
            },
            None => Set::empty(),
        },
        direct_edges: match step.skill {
            Some(k) => match k.external {
                Some(e) => if direct {
                    set![(e.0@, e.1@)]
                } else {
                    Set::empty()
                },
                None => Set::empty(),
            },
            None => Set::empty(),
        },
        agent_acts: 0,
        declared_artifact: false,
    }
}

/// What walking a step's nested runner gathers (its edges are not direct).
pub open spec fn step_nested(step: WalkStep) -> Option<Contribution>
    decreases step, 0int,
{
    match step.skill {
        Some(k) => match k.nested {
            Some(n) => source_contribution(*n, k.nested_declares_artifacts, false),
            None => Some(nothing()),
        },
        None => Some(nothing()),
    }
}

/// What walking the source a step runs gathers.
pub open spec fn step_run(step: WalkStep, direct: bool) -> Option<Contribution>
    decreases step, 0int,
{
    match step.run {
        Some(r) => source_contribution(*r, step.declares_artifacts, direct),
        None => Some(nothing()),
    }
}

/// What walking one step gathers: its own part, then its nested runner's
/// source, then the source it runs.
pub open spec fn step_contribution(step: WalkStep, direct: bool) -> Option<Contribution>
    decreases step, 1int,
{
    match (step_nested(step), step_run(step, direct)) {
        (Some(a), Some(b)) => Some(combine(combine(step_own(step, direct), a), b)),
        _ => None,
    }
}

/// The pairs a list of direct edges holds.
pub open spec fn pair_set(v: Seq<(String, String)>) -> Set<(Seq<char>, Seq<char>)> {
    Set::new(|p: (Seq<char>, Seq<char>)| exists|i: int| 0 <= i < v.len() && (#[trigger] v[i]).0@ == p.0 && v[i].1@ == p.1)
}

/// Why a walk stopped.
#[derive(Debug, PartialEq, Eq)]
pub enum WalkError {
    /// A graph source without a graph.
    GraphMissing,
}

/// `after` is `before` with `c` gathered: sets joined, agent acts added
/// (saturating), a declared artifact kept.
pub open spec fn gathered(before: ClosureAccumulator, after: ClosureAccumulator, c: Contribution) -> bool {
    &&& after.components@ == before.components@.union(c.components)
    &&& after.skill_edges@ == before.skill_edges@.union(c.skill_edges)
    &&& after.unresolved_skill_edges@ == before.unresolved_skill_edges@.union(c.unresolved)
    &&& pair_set(after.direct_external_skill_edges@) == pair_set(before.direct_external_skill_edges@).union(
        c.direct_edges,
    )
    &&& after.agent_acts == if before.agent_acts + c.agent_acts > usize::MAX {
        usize::MAX as int
    } else {
        before.agent_acts + c.agent_acts
    }
    &&& after.declared_artifact == (before.declared_artifact || c.declared_artifact)
}

proof fn lemma_gathered_nothing(a: ClosureAccumulator)
    ensures
        gathered(a, a, nothing()),
{
    assert(a.components@.union(Set::empty()) =~= a.components@);
    assert(a.skill_edges@.union(Set::empty()) =~= a.skill_edges@);
    assert(a.unresolved_skill_edges@.union(Set::empty()) =~= a.unresolved_skill_edges@);
    assert(pair_set(a.direct_external_skill_edges@).union(Set::empty()) =~= pair_set(
        a.direct_external_skill_edges@,
    ));
}

proof fn lemma_gathered_chain(
    a: ClosureAccumulator,
    b: ClosureAccumulator,
    d: ClosureAccumulator,
    c1: Contribution,
    c2: Contribution,
)
    requires
        gathered(a, b, c1),
        gathered(b, d, c2),
    ensures
        gathered(a, d, combine(c1, c2)),
{
    assert(a.components@.union(c1.components).union(c2.components) =~= a.components@.union(
        c1.components.union(c2.components),
    ));
    assert(a.skill_edges@.union(c1.skill_edges).union(c2.skill_edges) =~= a.skill_edges@.union(
        c1.skill_edges.union(c2.skill_edges),
    ));
    assert(a.unresolved_skill_edges@.union(c1.unresolved).union(c2.unresolved)
        =~= a.unresolved_skill_edges@.union(c1.unresolved.union(c2.unresolved)));
    assert(pair_set(a.direct_external_skill_edges@).union(c1.direct_edges).union(c2.direct_edges)
        =~= pair_set(a.direct_external_skill_edges@).union(c1.direct_edges.union(c2.direct_edges)));
}

proof fn lemma_steps_none(steps: Vec<WalkStep>, i: int, n: int, direct: bool)
    requires
        0 <= i <= n <= steps@.len(),
        steps_contribution(steps, i, direct) is None,
    ensures
        steps_contribution(steps, n, direct) is None,
    decreases n - i,
{
    if n > i {
        lemma_steps_none(steps, i, n - 1, direct);
    }
}

impl ClosureAccumulator {
    fn add_direct_edge(&mut self, skill: &str, runner: &str)
        ensures
            final(self).components@ == old(self).components@,
            final(self).skill_edges@ == old(self).skill_edges@,
            final(self).unresolved_skill_edges@ == old(self).unresolved_skill_edges@,
            final(self).agent_acts == old(self).agent_acts,
            final(self).declared_artifact == old(self).declared_artifact,
            pair_set(final(self).direct_external_skill_edges@) == pair_set(
                old(self).direct_external_skill_edges@,
            ).insert((skill@, runner@)),
    {
        let ghost before = self.direct_external_skill_edges@;
        self.direct_external_skill_edges.push((skill.to_owned(), runner.to_owned()));
        proof {
            let after = self.direct_external_skill_edges@;
            assert forall|p: (Seq<char>, Seq<char>)| #[trigger] pair_set(after).contains(p) == pair_set(
                before,
            ).insert((skill@, runner@)).contains(p) by {
                if pair_set(before).contains(p) {
                    let i = choose|i: int| 0 <= i < before.len() && (#[trigger] before[i]).0@ == p.0
                        && before[i].1@ == p.1;
                    assert(after[i] == before[i]);
                }
                if p == (skill@, runner@) {
                    assert(after[before.len() as int].0@ == p.0);
                }
                if pair_set(after).contains(p) {
                    let i = choose|i: int| 0 <= i < after.len() && (#[trigger] after[i]).0@ == p.0
                        && after[i].1@ == p.1;
                    if i < before.len() {
                        assert(before[i] == after[i]);
                    }
                }
            }
            assert(pair_set(after) =~= pair_set(before).insert((skill@, runner@)));
        }
    }

    /// Walks a source: a graph's steps in order (each step's tool, its
    /// skill edge, the nested runner's source, then the source it runs), or
    /// a leaf source's component or agent act.
    pub fn walk_source(&mut self, src: &WalkSource, declared: bool, direct: bool) -> (r: Result<
        (),
        WalkError,
    >)
        ensures
            r is Ok <==> source_contribution(*src, declared, direct) is Some,
            r is Ok ==> gathered(*old(self), *final(self), source_contribution(*src, declared, direct)->0),
        decreases src, 0int,
    {
        match &src.steps {
            Some(steps) if matches!(src.kind, SourceKind::Graph) => {
                let ghost start = *self;
                proof {
                    lemma_gathered_nothing(start);
                }
                let mut i: usize = 0;
                while i < steps.len()
                    invariant
                        i <= steps@.len(),
                        src.kind == SourceKind::Graph,
                        src.steps == Some(*steps),
                        steps_contribution(*steps, i as int, direct) is Some,
                        gathered(start, *self, steps_contribution(*steps, i as int, direct)->0),
                    decreases steps.len() - i,
                {
                    proof {
                        vstd::std_specs::vec::axiom_vec_index_decreases(*steps, i as int);
                    }
                    let ghost mid = *self;
                    match self.walk_step(&steps[i], direct) {
                        Ok(()) => {},
                        Err(e) => {
                            proof {
                                lemma_steps_none(*steps, i + 1, steps@.len() as int, direct);
                            }
                            return Err(e);
                        },
                    }
                    proof {
                        lemma_gathered_chain(
                            start,
                            mid,
                            *self,
                            steps_contribution(*steps, i as int, direct)->0,
                            step_contribution(steps@[i as int], direct)->0,
                        );
                    }
                    i = i + 1;
                }
                Ok(())
            },
            _ => {
                if matches!(src.kind, SourceKind::Graph) {
                    return Err(WalkError::GraphMissing);
                }
                let ghost before = *self;
                let command = match &src.command {
                    Some(c) => Some(c.as_str()),
                    None => None,
                };
                let tool = match &src.tool {
                    Some(t) => Some(t.as_str()),
                    None => None,
                };
                self.record_leaf_source(src.kind, command, tool, declared);
                proof {
                    let c = source_contribution(*src, declared, direct)->0;
                    assert(before.skill_edges@.union(Set::empty()) =~= before.skill_edges@);
                    assert(before.unresolved_skill_edges@.union(Set::empty())
                        =~= before.unresolved_skill_edges@);
                    assert(pair_set(before.direct_external_skill_edges@).union(Set::empty()) =~= pair_set(
                        before.direct_external_skill_edges@,
                    ));
                    if src.kind == SourceKind::Agent || src.kind == SourceKind::AgentStep {
                        assert(before.components@.union(Set::empty()) =~= before.components@);
                    } else {
                        assert(self.components@ =~= before.components@.union(c.components));
                    }
                }
                Ok(())
            },
        }
    }

    /// Walks one graph step.
    pub fn walk_step(&mut self, step: &WalkStep, direct: bool) -> (r: Result<(), WalkError>)
        ensures
            r is Ok <==> step_contribution(*step, direct) is Some,
            r is Ok ==> gathered(*old(self), *final(self), step_contribution(*step, direct)->0),
        decreases step, 0int,
    {
        let ghost start = *self;
        let tool = match &step.tool {
            Some(t) => Some(t.as_str()),
            None => None,
        };
        let (edge, resolved) = match &step.skill {
            Some(k) => (Some(k.edge.as_str()), k.resolved),
            None => (None, true),
        };
        self.record_step(tool, edge, resolved);
        match &step.skill {
            Some(k) => match &k.external {
                Some((s, n)) => if direct {
                    self.add_direct_edge(s.as_str(), n.as_str());
                },
                None => {},
            },
            None => {},
        }
        let ghost own_done = *self;
        proof {
            let own = step_own(*step, direct);
            assert(own_done.components@ =~= start.components@.union(own.components));
            assert(own_done.skill_edges@ =~= start.skill_edges@.union(own.skill_edges));
            assert(own_done.unresolved_skill_edges@ =~= start.unresolved_skill_edges@.union(own.unresolved));
            assert(pair_set(own_done.direct_external_skill_edges@) =~= pair_set(
                start.direct_external_skill_edges@,
            ).union(own.direct_edges));
            assert(gathered(start, own_done, own));
        }
        match &step.skill {
            Some(k) => match &k.nested {
                Some(n) => {
                    match self.walk_source(&**n, k.nested_declares_artifacts, false) {
                        Ok(()) => {},
                        Err(e) => {
                            return Err(e);
                        },
                    }
                },
                None => {
                    proof {
                        lemma_gathered_nothing(own_done);
                    }
                },
            },
            None => {
                proof {
                    lemma_gathered_nothing(own_done);
                }
            },
        }
        let ghost nested_done = *self;
        match &step.run {
            Some(r) => {
                match self.walk_source(&**r, step.declares_artifacts, direct) {
                    Ok(()) => {},
                    Err(e) => {
                        return Err(e);
                    },
                }
            },
            None => {
                proof {
                    lemma_gathered_nothing(nested_done);
                }
            },
        }
        proof {
            let own = step_own(*step, direct);
            let nested = step_nested(*step);
            let run = step_run(*step, direct);
            lemma_gathered_chain(start, own_done, nested_done, own, nested->0);
            lemma_gathered_chain(start, nested_done, *self, combine(own, nested->0), run->0);
        }
        Ok(())
    }
}

/// Only a direct walk records direct external edges: whatever a nested
/// runner's sources reach, walking them adds none.
pub proof fn lemma_nested_walk_adds_no_direct_edges(src: WalkSource, declared: bool)
    ensures
        source_contribution(src, declared, false) matches Some(c) ==> c.direct_edges == Set::<
            (Seq<char>, Seq<char>),
        >::empty(),
    decreases src, 0int,
{
    match src.kind {
        SourceKind::Graph => match src.steps {
            Some(steps) => {
                lemma_steps_add_no_direct_edges(steps, steps@.len() as int);
            },
            None => {},
        },
        SourceKind::Agent | SourceKind::AgentStep => {},
        _ => {},
    }
}

proof fn lemma_steps_add_no_direct_edges(steps: Vec<WalkStep>, n: int)
    ensures
        steps_contribution(steps, n, false) matches Some(c) ==> c.direct_edges == Set::<
            (Seq<char>, Seq<char>),
        >::empty(),
    decreases steps, n,
{
    if 0 < n <= steps@.len() {
        vstd::std_specs::vec::axiom_vec_index_decreases(steps, n - 1);
        lemma_steps_add_no_direct_edges(steps, n - 1);
        lemma_step_adds_no_direct_edges(steps@[n - 1]);
        if let Some(c) = steps_contribution(steps, n, false) {
            let a = steps_contribution(steps, n - 1, false)->0;
            let b = step_contribution(steps@[n - 1], false)->0;
            assert(c.direct_edges =~= a.direct_edges.union(b.direct_edges));
        }
    }
}

proof fn lemma_step_adds_no_direct_edges(step: WalkStep)
    ensures
        step_contribution(step, false) matches Some(c) ==> c.direct_edges == Set::<
            (Seq<char>, Seq<char>),
        >::empty(),
    decreases step, 1int,
{
    lemma_step_parts_add_no_direct_edges(step);
    if let Some(c) = step_contribution(step, false) {
        let own = step_own(step, false);
        assert(own.direct_edges =~= Set::<(Seq<char>, Seq<char>)>::empty());
        let a = step_nested(step)->0;
        let b = step_run(step, false)->0;
        assert(c.direct_edges =~= own.direct_edges.union(a.direct_edges).union(b.direct_edges));
    }
}

proof fn lemma_step_parts_add_no_direct_edges(step: WalkStep)
    ensures
        step_nested(step) matches Some(c) ==> c.direct_edges == Set::<(Seq<char>, Seq<char>)>::empty(),
        step_run(step, false) matches Some(c) ==> c.direct_edges == Set::<
            (Seq<char>, Seq<char>),
        >::empty(),
    decreases step, 0int,
{
    match step.skill {
        Some(k) => match k.nested {
            Some(n) => {
                lemma_nested_walk_adds_no_direct_edges(*n, k.nested_declares_artifacts);
            },
            None => {},
        },
        None => {},
    }
    match step.run {
        Some(r) => {
            lemma_nested_walk_adds_no_direct_edges(*r, step.declares_artifacts);
        },
        None => {},
    }
}

} // verus!
