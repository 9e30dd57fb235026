use runx::json::{JsonObject, JsonValue};
use runx::package::SkillPackageError;
use runx::package_source::{
    append_digest_field, collect_step_context_refs, has_nested_manual_boundary, hex_encode,
    immediate_nested_manual_prefixes, nested_package_source, required_text_file, text_file,
    validate_operator_reference_files, owned_profile_paths, package_digest, package_directory, package_relative,
    process_script_path, profile_directory, sha256_prefixed, validate_default_runners,
    validate_execution_files, validate_harness_support_files, validate_manual_ownership,
    validate_package_identity, validate_skill_package, ParsedPackageParts, ProfileHarness,
    SkillPackageSource,
};

fn source(paths: &[&str]) -> SkillPackageSource {
    SkillPackageSource {
        files: paths.iter().map(|p| (p.to_string(), b"x".to_vec())).collect(),
        symlinks: vec![],
    }
}

#[test]
fn nested_manuals_bound_their_files() {
    let package = source(&["SKILL.md", "X.yaml", "nested/SKILL.md", "nested/X.yaml", "tools/X.yaml"]);
    assert!(has_nested_manual_boundary("nested/X.yaml", &package));
    assert!(has_nested_manual_boundary("nested/deep/file.md", &package));
    assert!(!has_nested_manual_boundary("tools/X.yaml", &package));
    assert!(!has_nested_manual_boundary("X.yaml", &package));
    assert_eq!(
        owned_profile_paths(&package),
        vec!["X.yaml".to_owned(), "tools/X.yaml".to_owned()]
    );
}

#[test]
fn package_paths() {
    assert_eq!(package_directory("a/b/c.txt"), "a/b");
    assert_eq!(package_directory("c.txt"), "");
    assert_eq!(profile_directory("tools/echo/X.yaml"), "tools/echo");
    assert_eq!(profile_directory("X.yaml"), "");
    assert_eq!(package_relative("", "run.mjs"), "run.mjs");
    assert_eq!(package_relative("tools", "run.mjs"), "tools/run.mjs");
    assert_eq!(process_script_path("tools", " ./run.mjs "), Some("tools/run.mjs".to_owned()));
    assert_eq!(process_script_path("", "node"), None);
    assert_eq!(process_script_path("", "../x.js"), None);
    assert_eq!(process_script_path("", "/abs/x.js"), None);
}

#[test]
fn declared_files_must_exist_and_be_normalized() {
    let package = source(&["X.yaml", "fixtures/a.json", "tools/t/X.yaml", "tools/t/fixtures/b.json"]);
    assert!(validate_execution_files(&package, &vec!["X.yaml".to_owned()]).is_ok());
    let missing = validate_execution_files(&package, &vec!["run.mjs".to_owned()]).err().unwrap();
    assert_eq!(missing.path(), "run.mjs");
    let profiles = vec![
        ProfileHarness {
            profile_path: "X.yaml".to_owned(),
            harness_files: Some(vec!["fixtures/a.json".to_owned()]),
        },
        ProfileHarness {
            profile_path: "tools/t/X.yaml".to_owned(),
            harness_files: Some(vec!["fixtures/b.json".to_owned()]),
        },
    ];
    assert_eq!(
        validate_harness_support_files(&package, &profiles),
        Ok(vec!["fixtures/a.json".to_owned(), "tools/t/fixtures/b.json".to_owned()])
    );
    let bad = vec![ProfileHarness {
        profile_path: "X.yaml".to_owned(),
        harness_files: Some(vec!["fixtures/a.json".to_owned(), "../secret".to_owned()]),
    }];
    let error = validate_harness_support_files(&package, &bad).err().unwrap();
    assert_eq!(error.path(), "X.yaml.harness.files[1]");
    let absent = vec![ProfileHarness {
        profile_path: "X.yaml".to_owned(),
        harness_files: Some(vec!["fixtures/none.json".to_owned()]),
    }];
    assert_eq!(
        validate_harness_support_files(&package, &absent).err().unwrap().message(),
        "declared harness file \"fixtures/none.json\" is missing from the package"
    );
}

#[test]
fn manual_frontmatter_holds_no_execution_metadata() {
    let mut front = JsonObject::new();
    front.insert("name".to_owned(), JsonValue::String("demo".to_owned()));
    assert!(validate_manual_ownership(&front).is_ok());
    let mut runx = JsonObject::new();
    runx.insert("tags".to_owned(), JsonValue::Array(vec![]));
    runx.insert("runner".to_owned(), JsonValue::Null);
    front.insert("runx".to_owned(), JsonValue::Object(runx));
    assert_eq!(validate_manual_ownership(&front).err().unwrap().path(), "SKILL.md.runx.runner");
    front.insert("retry".to_owned(), JsonValue::Null);
    front.insert("inputs".to_owned(), JsonValue::Null);
    assert_eq!(validate_manual_ownership(&front).err().unwrap().path(), "SKILL.md.inputs");
}

#[test]
fn identity_defaults_and_context_refs() {
    assert!(validate_package_identity("demo", None).is_ok());
    assert!(validate_package_identity("demo", Some("demo")).is_ok());
    assert_eq!(
        validate_package_identity("demo", Some("other")).err().unwrap().message(),
        "manifest skill \"other\" does not match SKILL.md name \"demo\""
    );
    assert!(validate_default_runners("X.yaml", &vec![true, false]).is_ok());
    assert_eq!(
        validate_default_runners("X.yaml", &vec![true, true]).err().unwrap().path(),
        "X.yaml.runners"
    );
    assert_eq!(
        collect_step_context_refs("s", &vec!["a".to_owned(), "b".to_owned()]),
        Ok(vec!["a".to_owned(), "b".to_owned()])
    );
    assert_eq!(
        collect_step_context_refs("s", &vec!["a".to_owned(), "a".to_owned()]).err().unwrap().message(),
        "context skill ref \"a\" is declared more than once"
    );
}

#[test]
fn package_digest_is_sha256_of_the_canonical_encoding() {
    assert_eq!(hex_encode(&[0x00, 0xab, 0x10]), "00ab10");
    assert_eq!(
        sha256_prefixed(b"abc"),
        "sha256:ba7816bf8f01cfea414140de5dae2223b00361a396177a9cb410ff61f20015ad"
    );
    let mut field = Vec::new();
    append_digest_field(&mut field, b"hi");
    assert_eq!(field, vec![0, 0, 0, 0, 0, 0, 0, 2, b'h', b'i']);
    let files = vec![("SKILL.md".to_owned(), b"# x".to_vec())];
    let mut canonical = b"runx.skill-package.v1\0".to_vec();
    append_digest_field(&mut canonical, b"SKILL.md");
    append_digest_field(&mut canonical, b"# x");
    assert_eq!(package_digest(&files), sha256_prefixed(&canonical));
    assert_ne!(package_digest(&files), package_digest(&vec![]));
}

#[test]
fn only_outermost_nested_manuals_are_immediate() {
    let package = source(&[
        "SKILL.md",
        "a/SKILL.md",
        "a/b/SKILL.md",
        "c/d/SKILL.md",
        "c/d/e/SKILL.md",
        "notes/SKILL.md.bak",
    ]);
    assert_eq!(
        immediate_nested_manual_prefixes(&package),
        vec!["a".to_owned(), "c/d".to_owned()]
    );
    assert!(immediate_nested_manual_prefixes(&source(&["SKILL.md", "X.yaml"])).is_empty());
}

#[test]
fn nested_source_keeps_files_below_the_prefix() {
    let package = SkillPackageSource {
        files: vec![
            ("SKILL.md".to_owned(), b"root".to_vec()),
            ("sub/SKILL.md".to_owned(), b"nested".to_vec()),
            ("sub/tools/run.js".to_owned(), b"js".to_vec()),
            ("subway/X.yaml".to_owned(), b"other".to_vec()),
        ],
        symlinks: vec!["sub/link".to_owned(), "link".to_owned()],
    };
    let nested = nested_package_source(&package, "sub");
    assert_eq!(
        nested.files,
        vec![
            ("SKILL.md".to_owned(), b"nested".to_vec()),
            ("tools/run.js".to_owned(), b"js".to_vec()),
        ]
    );
    assert_eq!(nested.symlinks, vec!["link".to_owned()]);
}

#[test]
fn package_text_must_be_utf8() {
    assert_eq!(text_file("SKILL.md", b"# Echo"), Ok("# Echo".to_owned()));
    match text_file("SKILL.md", &[0x66, 0xff]) {
        Err(SkillPackageError::Invalid { path, message }) => {
            assert_eq!(path, "SKILL.md");
            assert!(message.starts_with("parser input must be UTF-8: "));
            assert!(message.contains("index 1"));
        }
        other => panic!("unexpected {other:?}"),
    }
    let package = source(&["SKILL.md"]);
    assert_eq!(required_text_file(&package, "SKILL.md"), Ok("x".to_owned()));
    assert_eq!(
        required_text_file(&package, "X.yaml"),
        Err(SkillPackageError::Invalid {
            path: "X.yaml".to_owned(),
            message: "required package file is missing".to_owned(),
        })
    );
}

#[test]
fn operator_references_are_own_markdown_files() {
    let package = source(&[
        "SKILL.md",
        "docs/references/usage.md",
        "nested/SKILL.md",
        "nested/references/inner.md",
        "references/guide.md",
        "references/image.png",
    ]);
    assert_eq!(
        validate_operator_reference_files(&package),
        Ok(vec!["docs/references/usage.md".to_owned(), "references/guide.md".to_owned()])
    );
    let mut broken = source(&["references/a.md"]);
    broken.files[0].1 = vec![0xc3];
    match validate_operator_reference_files(&broken) {
        Err(SkillPackageError::Invalid { path, .. }) => assert_eq!(path, "references/a.md"),
        other => panic!("unexpected {other:?}"),
    }
}

#[test]
fn each_immediate_nested_package_holds_its_manual() {
    let package = SkillPackageSource {
        files: vec![
            ("SKILL.md".to_owned(), b"outer".to_vec()),
            ("a/SKILL.md".to_owned(), b"inner a".to_vec()),
            ("a/b/SKILL.md".to_owned(), b"deeper".to_vec()),
            ("c/SKILL.md".to_owned(), b"inner c".to_vec()),
        ],
        symlinks: vec![],
    };
    for prefix in immediate_nested_manual_prefixes(&package) {
        let nested = nested_package_source(&package, &prefix);
        let manual = nested.files.iter().find(|(path, _)| path == "SKILL.md");
        let outer = format!("{prefix}/SKILL.md");
        let expected = package.files.iter().find(|(path, _)| *path == outer).map(|f| &f.1);
        assert_eq!(manual.map(|f| &f.1), expected);
    }
}

fn parts(name: &str, execution: Vec<&str>) -> ParsedPackageParts {
    ParsedPackageParts {
        manual_name: name.to_owned(),
        manual_frontmatter: JsonObject::new(),
        manifest_skill: Some(name.to_owned()),
        harness: vec![],
        profile_defaults: vec![("X.yaml".to_owned(), vec![true, false])],
        execution_files: execution.into_iter().map(str::to_owned).collect(),
        module_files: vec!["tools/run.js".to_owned()],
        context_skill_refs: vec!["skills/b".to_owned(), "skills/a".to_owned(), "skills/b".to_owned()],
    }
}

#[test]
fn a_valid_package_carries_its_digests_and_consumed_files() {
    let package = SkillPackageSource {
        files: vec![
            ("SKILL.md".to_owned(), b"# echo".to_vec()),
            ("X.yaml".to_owned(), b"skill: echo".to_vec()),
            ("references/guide.md".to_owned(), b"guide".to_vec()),
            ("tools/run.js".to_owned(), b"export default 1".to_vec()),
            ("tools/run.sh".to_owned(), b"echo".to_vec()),
        ],
        symlinks: vec![],
    };
    let validated = validate_skill_package(&package, &parts("echo", vec!["tools/run.sh"])).unwrap();
    assert_eq!(validated.manual_markdown, "# echo");
    assert_eq!(validated.manual_digest, sha256_prefixed(b"# echo"));
    assert_eq!(validated.package_digest, package_digest(&package.files));
    assert_eq!(validated.source_digests.len(), 5);
    assert_eq!(validated.source_digests[4], ("tools/run.sh".to_owned(), sha256_prefixed(b"echo")));
    assert_eq!(
        validated.consumed_files,
        vec![
            "SKILL.md".to_owned(),
            "X.yaml".to_owned(),
            "references/guide.md".to_owned(),
            "tools/run.js".to_owned(),
            "tools/run.sh".to_owned(),
        ]
    );
    assert_eq!(validated.profiles, vec!["X.yaml".to_owned()]);
    assert_eq!(validated.execution_files, vec!["tools/run.sh".to_owned()]);
    assert_eq!(validated.context_skill_refs, vec!["skills/a".to_owned(), "skills/b".to_owned()]);
}

#[test]
fn a_profile_with_two_default_runners_is_refused() {
    let package = source(&["SKILL.md", "X.yaml"]);
    let mut ambiguous = parts("echo", vec![]);
    ambiguous.profile_defaults = vec![("X.yaml".to_owned(), vec![true, false, true])];
    assert_eq!(
        validate_skill_package(&package, &ambiguous).err(),
        Some(SkillPackageError::Invalid {
            path: "X.yaml.runners".to_owned(),
            message: "runner selection is ambiguous: declare at most one default runner".to_owned(),
        })
    );
}

#[test]
fn package_validation_reports_the_first_failure() {
    let package = source(&["X.yaml"]);
    assert_eq!(
        validate_skill_package(&package, &parts("echo", vec![])).err(),
        Some(SkillPackageError::Invalid {
            path: "SKILL.md".to_owned(),
            message: "required package file is missing".to_owned(),
        })
    );
    let package = source(&["SKILL.md"]);
    let mut other = parts("echo", vec!["tools/missing.sh"]);
    other.manifest_skill = Some("other".to_owned());
    assert_eq!(
        validate_skill_package(&package, &other).err().map(|e| e.path().clone()),
        Some("X.yaml.skill".to_owned())
    );
    let missing = validate_skill_package(&package, &parts("echo", vec!["tools/missing.sh"])).err();
    assert_eq!(missing.map(|e| e.path().clone()), Some("tools/missing.sh".to_owned()));
}
