use runx::contracts::InputDefinition;
use runx::export::{
    default_runner, export_mode, export_skill_name, is_export_input_name, is_ignored_directory,
    is_reserved_skill_flag, load_export_skills, validate_export_skill_inputs, ExportCandidate,
    ExportManifest, ExportRunner, ExportSkillSource, RunxExportLoadError, RunxExportMode,
};
use runx::registry::{
    check_publish_status, encode_path_component, runx_skill_public_url, split_once,
    HostedAdminSkillPublishResult, HostedAdminSkillRecord, HostedSkillPublishLink,
    RegistryPackageFile, RegistryPublishError, RegistryPublishPackage, RegistryPublishPackageError,
};
use runx::skill_authoring::{
    NonEmptyString, SkillApprovalRequirement, SkillChangeBundleSchema, SkillEffectClass,
    SkillExecutionLane, SkillPackageMetrics,
};

fn input(required: bool) -> InputDefinition {
    InputDefinition {
        input_type: "string".to_owned(),
        required,
        description: None,
        default: None,
        artifact: None,
    }
}

fn source(name: &str, inputs: Vec<(String, InputDefinition)>) -> ExportSkillSource {
    ExportSkillSource {
        name: name.to_owned(),
        description: None,
        inputs,
        body: "# body".to_owned(),
        cli_tool: false,
        command_file_name: None,
    }
}

#[test]
fn export_names_join_safe_segments() {
    assert_eq!(export_skill_name("acme/deploy.v2"), Ok("acme-deploy.v2".to_owned()));
    assert_eq!(
        export_skill_name("acme\\deploy"),
        Err(RunxExportLoadError::InvalidArgs(
            "skill name \"acme\\\\deploy\" cannot be exported because it is not a safe path segment"
                .to_owned()
        ))
    );
    for bad in ["acme//x", "-x", "x-", "a/..", "a b", ""] {
        assert!(export_skill_name(bad).is_err(), "{bad}");
    }
}

#[test]
fn export_flags_must_be_safe() {
    assert!(is_export_input_name("_topic2"));
    assert!(!is_export_input_name("2topic"));
    assert!(!is_export_input_name("to-pic"));
    assert!(is_reserved_skill_flag("receipt_dir"));
    assert!(!is_reserved_skill_flag("topic"));
    assert_eq!(
        validate_export_skill_inputs(&vec![("json".to_owned(), input(true))])
            .err()
            .map(|e| e.message()),
        Some(
            "skill input \"json\" cannot be exported because it is not a safe runx skill flag"
                .to_owned()
        )
    );
    assert!(is_ignored_directory("node_modules"));
    assert!(!is_ignored_directory("skills"));
}

#[test]
fn default_runner_is_the_marked_one_or_the_only_one() {
    let two = ExportManifest {
        runners: vec![
            ("a".to_owned(), ExportRunner { default: false, inputs: vec![] }),
            ("b".to_owned(), ExportRunner { default: true, inputs: vec![] }),
        ],
        internal: false,
    };
    assert_eq!(default_runner(Some(&two)), Some(1));
    let ambiguous = ExportManifest {
        runners: vec![
            ("a".to_owned(), ExportRunner { default: false, inputs: vec![] }),
            ("b".to_owned(), ExportRunner { default: false, inputs: vec![] }),
        ],
        internal: false,
    };
    assert_eq!(default_runner(Some(&ambiguous)), None);
    assert_eq!(default_runner(None), None);
}

#[test]
fn runtime_guide_exports_native_instructions() {
    let mut guide = source("runx", vec![]);
    guide.cli_tool = true;
    guide.command_file_name = Some("runx".to_owned());
    assert_eq!(
        export_mode(&guide),
        RunxExportMode::NativeInstructions { body: "# body".to_owned() }
    );
    assert_eq!(export_mode(&source("runx", vec![])), RunxExportMode::Delegated);
}

#[test]
fn catalog_export_skips_internal_skills_and_orders_by_name() {
    let internal = ExportManifest { runners: vec![], internal: true };
    let candidates = vec![
        ExportCandidate {
            skill_dir: "/s/zeta".to_owned(),
            skill: source("zeta", vec![("topic".to_owned(), input(true))]),
            manifest: None,
        },
        ExportCandidate {
            skill_dir: "/s/alpha".to_owned(),
            skill: source("alpha", vec![]),
            manifest: None,
        },
        ExportCandidate {
            skill_dir: "/s/hidden".to_owned(),
            skill: source("hidden", vec![]),
            manifest: Some(internal),
        },
    ];
    let skills = load_export_skills("/s", &vec![], candidates).unwrap();
    let names: Vec<&str> = skills.iter().map(|s| s.name.as_str()).collect();
    assert_eq!(names, vec!["alpha", "zeta"]);
    assert_eq!(skills[1].inputs[0].0, "topic");
    assert_eq!(skills[0].description, "Run this skill through runx governance.");
    let duplicates = vec![
        ExportCandidate { skill_dir: "/a".to_owned(), skill: source("a/b", vec![]), manifest: None },
        ExportCandidate { skill_dir: "/b".to_owned(), skill: source("a-b", vec![]), manifest: None },
    ];
    assert_eq!(
        load_export_skills("/", &vec!["a".to_owned()], duplicates).err().map(|e| e.message()),
        Some("multiple skills normalize to the export name \"a-b\"".to_owned())
    );
}

#[test]
fn public_urls_percent_encode_each_component() {
    assert_eq!(encode_path_component("a b/é"), "a%20b%2F%C3%A9");
    assert_eq!(
        runx_skill_public_url("acme/deploy", "1.0.0"),
        "https://runx.ai/x/acme/deploy@1.0.0"
    );
    assert_eq!(runx_skill_public_url("solo", "v 1"), "https://runx.ai/x//solo@v%201");
    assert_eq!(split_once("a/b/c", '/'), Some(("a".to_owned(), "b/c".to_owned())));
    let link = HostedSkillPublishLink {
        install_command: "i".to_owned(),
        run_command: "r".to_owned(),
        public_url: None,
        link: Some("ftp://x".to_owned()),
    };
    assert_eq!(link.public_url("o/n", "1"), "https://runx.ai/x/o/n@1");
    let admin = HostedAdminSkillPublishResult {
        status: "published".to_owned(),
        skill_id: "acme/deploy".to_owned(),
        name: "deploy".to_owned(),
        version: "1".to_owned(),
        digest: "sha256:x".to_owned(),
        profile_digest: None,
        record: None,
        link: HostedSkillPublishLink {
            install_command: "i".to_owned(),
            run_command: "r".to_owned(),
            public_url: None,
            link: Some("https://example.test/p".to_owned()),
        },
    };
    let result = admin.into_hosted_result();
    assert_eq!(result.owner, "acme");
    assert_eq!(result.trust_tier, "first_party");
    assert_eq!(result.public_url, "https://example.test/p");
    let _record = HostedAdminSkillRecord { owner: "o".to_owned(), trust_tier: None };
}

#[test]
fn publish_statuses_and_prepared_packages() {
    assert!(check_publish_status("success", "published", false).is_ok());
    assert!(check_publish_status("success", "unchanged", true).is_ok());
    assert_eq!(
        check_publish_status("success", "unchanged", false),
        Err(RegistryPublishError::Contract(
            "unsuccessful status: envelope=success, publish=unchanged".to_owned()
        ))
    );
    let package = RegistryPublishPackage::new(
        "# manual".to_owned(),
        None,
        vec![RegistryPackageFile { path: "SKILL.md".to_owned(), contents: "x".to_owned() }],
        None,
    );
    assert_eq!(package.markdown(), "# manual");
    assert_eq!(package.profile_document(), None);
    assert_eq!(package.package_files().len(), 1);
    assert_eq!(
        package.run_harness(),
        Err(RegistryPublishPackageError::Invalid {
            message: "publish requires a skill execution profile and at least one harness case"
                .to_owned()
        })
    );
    let parts = package.into_parts();
    assert_eq!(parts.package_files[0].path, "SKILL.md");
}

#[test]
fn skill_authoring_wire_names() {
    assert_eq!(SkillExecutionLane::AgentTask.as_str(), "agent_task");
    assert_eq!(SkillExecutionLane::parse("cli_tool"), Some(SkillExecutionLane::CliTool));
    assert_eq!(SkillEffectClass::parse("none"), Some(SkillEffectClass::NoEffect));
    assert_eq!(SkillApprovalRequirement::NotRequired.as_str(), "none");
    assert_eq!(SkillChangeBundleSchema::V1.as_str(), "runx.skill.change_bundle.v1");
    assert_eq!(SkillChangeBundleSchema::parse("runx.skill.change_bundle.v2"), None);
    assert!(NonEmptyString::new(String::new()).is_none());
    assert_eq!(NonEmptyString::new("x".to_owned()).unwrap().as_str(), "x");
    assert_eq!(SkillPackageMetrics::default().files, 0);
}
