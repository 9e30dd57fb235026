use runx::export_shim::{
    indent_block, render_command, render_continuation, render_default_runner, render_inspect_command,
    render_runner_index, render_source_manual, shell_quote, yaml_plain_or_quoted,
};

#[test]
fn shell_words_are_quoted_only_when_needed() {
    assert_eq!(shell_quote("/usr/local/bin/runx"), "/usr/local/bin/runx");
    assert_eq!(shell_quote("skills/a-b_c:1.0"), "skills/a-b_c:1.0");
    assert_eq!(shell_quote("my skill"), "'my skill'");
    assert_eq!(shell_quote("it's"), "'it'\"'\"'s'");
    assert_eq!(shell_quote(""), "");
}

#[test]
fn yaml_names_are_quoted_as_json_when_needed() {
    assert_eq!(yaml_plain_or_quoted("digest-note_1.0"), "digest-note_1.0");
    assert_eq!(yaml_plain_or_quoted("a: b"), "\"a: b\"");
    assert_eq!(yaml_plain_or_quoted("say \"hi\""), "\"say \\\"hi\\\"\"");
}

#[test]
fn descriptions_become_indented_blocks() {
    assert_eq!(indent_block(""), "  \n");
    assert_eq!(indent_block("one"), "  one\n");
    assert_eq!(indent_block("one\ntwo\n"), "  one\n  two\n");
    assert_eq!(indent_block("one\r\n\ntwo"), "  one\n  \n  two\n");
    assert_eq!(indent_block("\n"), "  \n");
}

#[test]
fn source_manual_is_embedded_with_its_byte_length() {
    assert_eq!(
        render_source_manual("sha256:m", "sha256:p", "# Hé\n"),
        "<!-- runx-source-manual-begin digest=sha256:m package-digest=sha256:p bytes=6 -->\n# Hé\n<!-- runx-source-manual-end -->\n\n"
    );
}

#[test]
fn runner_commands_name_target_runner_and_digests() {
    assert_eq!(
        render_inspect_command("skills/note", Some("read"), "runx"),
        "runx skill inspect skills/note read --json"
    );
    assert_eq!(
        render_inspect_command("my skill", None, "runx"),
        "runx skill inspect 'my skill' --json"
    );
    let inputs = vec![
        ("note".to_owned(), true, false),
        ("tone".to_owned(), true, true),
        ("extra".to_owned(), false, false),
    ];
    assert_eq!(
        render_command("skills/note", None, None, &inputs, "sha256:p", Some("sha256:c"), "runx"),
        "runx skill skills/note \\\n  --note \"<note>\" \\\n  --package-digest sha256:p \\\n  --execution-closure-digest sha256:c \\\n  --json"
    );
    let example = vec![("note".to_owned(), "\"hello world\"".to_owned())];
    assert_eq!(
        render_command("skills/note", Some("read"), Some(&example), &inputs, "sha256:p", None, "runx"),
        "runx skill skills/note read \\\n  --input-json note '\"hello world\"' \\\n  --package-digest sha256:p \\\n  --json"
    );
}

#[test]
fn other_runners_are_indexed() {
    let index = render_runner_index("s", &vec![Some("write".to_owned()), None], "runx");
    assert!(index.starts_with("## Other runners\n\n"));
    assert!(index.ends_with("- `write`: `runx skill inspect s write --json`\n- `default`: `runx skill inspect s --json`\n\n"));
}

#[test]
fn continuation_binds_the_digests() {
    let text = render_continuation("sha256:p", Some("sha256:c"), "runx");
    assert!(text.starts_with("Interpret the runx JSON result exactly:\n"));
    assert!(text.contains("printf '%s' \"$RUNX_ANSWERS_JSON\" | runx resume \"<run_id>\" - --package-digest sha256:p --execution-closure-digest sha256:c --json\n```\n"));
    assert!(text.ends_with("raw credentials in the continuation object or response.\n\n"));
    let section = render_default_runner("s", None, None, &vec![], "sha256:p", None, "runx");
    assert!(section.starts_with("## Default runner: `default`\n\nInspect the exact input and effect contract on demand:\n\n```bash\nrunx skill inspect s --json\n```\n\nInvocation template (replace placeholders before running):\n\n```bash\nrunx skill s \\\n  --package-digest sha256:p \\\n  --json\n```\n\n"));
    assert!(section.ends_with(&render_continuation("sha256:p", None, "runx")));
}
