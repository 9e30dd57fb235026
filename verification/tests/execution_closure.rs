use runx::execution_closure::{
    direct_external_skill_edge, execution_closure_digest, execution_summary, is_registry_step_ref,
    skill_edge, source_component, step_reference_unresolvable, ClosureAccumulator,
    ExecutionPackageBinding, SourceKind, WalkError, WalkSkill, WalkSource, WalkStep,
};
use sha2::{Digest, Sha256};

fn strings(items: &[&str]) -> Vec<String> {
    items.iter().map(|s| s.to_string()).collect()
}

#[test]
fn summaries_list_components_then_agent_acts() {
    assert_eq!(execution_summary(&strings(&[]), 0, false), "none");
    assert_eq!(execution_summary(&strings(&["javascript", "tool:data.digest"]), 0, true), "javascript, tool:data.digest");
    assert_eq!(execution_summary(&strings(&[]), 1, true), "1 agent act -> declared artifact");
    assert_eq!(execution_summary(&strings(&[]), 3, false), "3 agent acts");
    assert_eq!(
        execution_summary(&strings(&["mcp:search"]), 2, true),
        "mcp:search; 2 agent acts -> declared artifact"
    );
    assert_eq!(execution_summary(&strings(&["a2a"]), 1, false), "a2a; 1 agent act");
}

#[test]
fn sources_contribute_their_components() {
    assert_eq!(source_component(SourceKind::CliTool, Some("git"), None), Some("cli-tool:git".to_owned()));
    assert_eq!(source_component(SourceKind::CliTool, None, None), Some("cli-tool".to_owned()));
    assert_eq!(source_component(SourceKind::Mcp, None, Some("search")), Some("mcp:search".to_owned()));
    assert_eq!(source_component(SourceKind::JavaScript, Some("x"), None), Some("javascript".to_owned()));
    assert_eq!(source_component(SourceKind::Graph, None, None), None);
    assert_eq!(source_component(SourceKind::AgentStep, None, None), None);
    assert_eq!(
        source_component(SourceKind::ThreadOutboxProvider, None, None),
        Some("thread-outbox-provider".to_owned())
    );
}

#[test]
fn registry_references_are_recognized() {
    assert!(is_registry_step_ref("registry:runx/hello"));
    assert!(is_registry_step_ref("runx-registry:runx/hello@1"));
    assert!(is_registry_step_ref("runx://skill/runx/hello"));
    assert!(!is_registry_step_ref("./child"));
    assert!(!is_registry_step_ref("$input.skill"));
}

fn field(out: &mut Vec<u8>, value: &[u8]) {
    out.extend_from_slice(&(value.len() as u64).to_be_bytes());
    out.extend_from_slice(value);
}

#[test]
fn closure_digest_binds_packages_and_unresolved_edges() {
    let bindings = vec![ExecutionPackageBinding {
        skill: "root".to_owned(),
        runner: "inspect".to_owned(),
        package_digest: "sha256:abc".to_owned(),
        source_path: "/pkg".to_owned(),
        source_files: strings(&["SKILL.md"]),
    }];
    let edges = strings(&["registry:x#default"]);
    let mut canonical = b"runx.execution-closure.v1\0".to_vec();
    field(&mut canonical, b"1.0");
    field(&mut canonical, b"root");
    field(&mut canonical, b"inspect");
    field(&mut canonical, b"sha256:abc");
    field(&mut canonical, b"unresolved");
    field(&mut canonical, b"registry:x#default");
    let expected: String = Sha256::digest(&canonical).iter().map(|b| format!("{b:02x}")).collect();
    assert_eq!(execution_closure_digest("1.0", &bindings, &edges), format!("sha256:{expected}"));
    assert_ne!(
        execution_closure_digest("1.0", &bindings, &vec![]),
        execution_closure_digest("1.0", &bindings, &edges)
    );
}

#[test]
fn the_walk_gathers_components_edges_and_agent_acts() {
    let mut acc = ClosureAccumulator::new();
    acc.record_leaf_source(SourceKind::CliTool, Some("git"), None, false);
    acc.record_leaf_source(SourceKind::Agent, None, None, true);
    acc.record_leaf_source(SourceKind::AgentStep, None, None, false);
    acc.record_step(Some("fs.read"), Some("registry:acme/echo#default"), false);
    acc.record_step(None, Some("echo#main"), true);
    assert_eq!(acc.components.elements(), &vec!["cli-tool:git".to_owned(), "tool:fs.read".to_owned()]);
    assert_eq!(
        acc.skill_edges.elements(),
        &vec!["echo#main".to_owned(), "registry:acme/echo#default".to_owned()]
    );
    assert_eq!(acc.unresolved_skill_edges.elements(), &vec!["registry:acme/echo#default".to_owned()]);
    assert_eq!(acc.agent_acts, 2);
    assert!(acc.declared_artifact);
    assert!(step_reference_unresolvable("$input.skill", true));
    assert!(step_reference_unresolvable("registry:acme/echo", false));
    assert!(!step_reference_unresolvable("registry:acme/echo", true));
    assert!(!step_reference_unresolvable("./echo", false));
    assert_eq!(skill_edge("acme/echo", None), "acme/echo#default");
    assert_eq!(skill_edge("echo", Some("main")), "echo#main");
    assert_eq!(direct_external_skill_edge(Some(("echo", "main", true)), None, None), None);
    assert_eq!(
        direct_external_skill_edge(Some(("echo", "main", false)), None, None),
        Some(("echo".to_owned(), "main".to_owned()))
    );
    assert_eq!(
        direct_external_skill_edge(None, Some("acme/echo"), None),
        Some(("acme/echo".to_owned(), "default".to_owned()))
    );
}

fn leaf(kind: SourceKind, command: Option<&str>, tool: Option<&str>) -> WalkSource {
    WalkSource {
        kind,
        command: command.map(|c| c.to_owned()),
        tool: tool.map(|t| t.to_owned()),
        steps: None,
    }
}

fn graph(steps: Vec<WalkStep>) -> WalkSource {
    WalkSource { kind: SourceKind::Graph, command: None, tool: None, steps: Some(steps) }
}

#[test]
fn walking_a_graph_gathers_its_steps_nested_runners_and_run_sources() {
    let nested = graph(vec![WalkStep {
        tool: Some("fs.write".to_owned()),
        skill: Some(WalkSkill {
            edge: "inner#default".to_owned(),
            resolved: false,
            external: Some(("inner".to_owned(), "default".to_owned())),
            nested: None,
            nested_declares_artifacts: false,
        }),
        run: Some(Box::new(leaf(SourceKind::Mcp, None, Some("search")))),
        declares_artifacts: false,
    }]);
    let root = graph(vec![
        WalkStep {
            tool: Some("fs.read".to_owned()),
            skill: Some(WalkSkill {
                edge: "acme/echo#main".to_owned(),
                resolved: true,
                external: Some(("acme/echo".to_owned(), "main".to_owned())),
                nested: Some(Box::new(nested)),
                nested_declares_artifacts: false,
            }),
            run: None,
            declares_artifacts: false,
        },
        WalkStep {
            tool: None,
            skill: None,
            run: Some(Box::new(leaf(SourceKind::Agent, None, None))),
            declares_artifacts: true,
        },
        WalkStep {
            tool: None,
            skill: None,
            run: Some(Box::new(leaf(SourceKind::CliTool, Some("git"), None))),
            declares_artifacts: false,
        },
    ]);
    let mut acc = ClosureAccumulator::new();
    assert_eq!(acc.walk_source(&root, false, true), Ok(()));
    assert_eq!(
        acc.components.elements(),
        &strings(&["cli-tool:git", "mcp:search", "tool:fs.read", "tool:fs.write"])
    );
    assert_eq!(acc.skill_edges.elements(), &strings(&["acme/echo#main", "inner#default"]));
    assert_eq!(acc.unresolved_skill_edges.elements(), &strings(&["inner#default"]));
    // Only the root's edges are direct; the nested runner's are not.
    assert_eq!(
        acc.direct_external_skill_edges,
        vec![("acme/echo".to_owned(), "main".to_owned())]
    );
    assert_eq!(acc.agent_acts, 1);
    assert!(acc.declared_artifact);
}

#[test]
fn a_graph_source_without_a_graph_stops_the_walk() {
    let broken = WalkSource { kind: SourceKind::Graph, command: None, tool: None, steps: None };
    let mut acc = ClosureAccumulator::new();
    assert_eq!(acc.walk_source(&broken, false, true), Err(WalkError::GraphMissing));
    let root = graph(vec![WalkStep {
        tool: None,
        skill: None,
        run: Some(Box::new(broken)),
        declares_artifacts: false,
    }]);
    assert_eq!(ClosureAccumulator::new().walk_source(&root, false, true), Err(WalkError::GraphMissing));
}
