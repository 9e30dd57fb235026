use runx::javascript::{module_imports, process_module_imports};

#[test]
fn finds_static_and_literal_dynamic_imports_without_reading_comments_or_strings() {
    let source = r#"
            // import "./ignored.mjs";
            const prose = "import './also-ignored.mjs'";
            import { one } from "./one.mjs";
            export { two } from './two.js';
        "#;
    assert_eq!(
        module_imports("domain/main.mjs", source),
        Ok(vec!["./one.mjs".to_owned(), "./two.js".to_owned(),])
    );
}

#[test]
fn rejects_dynamic_import_even_with_a_literal_specifier() {
    let error = module_imports("domain/main.mjs", "import('./other.mjs')")
        .err()
        .map(|error| error.to_text());
    assert!(error.is_some_and(|message| message.contains("dynamic import()")));
}

#[test]
fn process_import_scan_does_not_treat_exported_function_bodies_as_re_exports() {
    let source = r#"
            import fs from "node:fs";
            export function createStore(from) {
                return from ?? fs;
            }
        "#;

    assert_eq!(
        process_module_imports("tools/data/store/run.mjs", source),
        Ok(vec!["node:fs".to_owned()])
    );
}

#[test]
fn process_import_scan_accepts_node_shebangs() {
    assert_eq!(
        process_module_imports(
            "tools/provider/action/run.mjs",
            "#!/usr/bin/env node\nimport fs from 'node:fs';\n",
        ),
        Ok(vec!["node:fs".to_owned()])
    );
}

#[test]
fn process_import_scan_collects_static_commonjs_dependencies() {
    assert_eq!(
        process_module_imports(
            "tools/provider/action/run.cjs",
            "const helper = require('./helper.cjs');\n",
        ),
        Ok(vec!["./helper.cjs".to_owned()])
    );
}

#[test]
fn process_import_scan_rejects_dynamic_commonjs_dependencies() {
    let error = process_module_imports(
        "tools/provider/action/run.cjs",
        "const helper = require(process.env.HELPER);\n",
    )
    .err()
    .map(|error| error.to_text());

    assert!(error.is_some_and(|message| message.contains("only static require")));
}

#[test]
fn ignores_quotes_and_import_words_inside_regular_expressions() {
    let source = r#"
            const segment = value.split(/\s+/)[0]?.replace(/[^a-zA-Z'-]/g, "");
            const field = value.replace(/^['"]|['"]$/gu, "");
            const marker = /import\(['"]ignored['"]\)/u;
            import actual from "./actual.mjs";
        "#;

    assert_eq!(
        module_imports("domain/main.mjs", source),
        Ok(vec!["./actual.mjs".to_owned()])
    );
}

#[test]
fn rejects_effect_and_process_plumbing_outside_literals() {
    for (source, boundary) in [
        ("export default () => fetch('/data');", "fetch"),
        ("export default () => require('node:fs');", "require"),
        (
            "export default () => process.env.TOKEN;",
            "process runtime plumbing",
        ),
        ("export default () => RUNX_INPUTS_JSON;", "RUNX_INPUTS_JSON"),
    ] {
        let error = module_imports("domain/main.mjs", source)
            .err()
            .map(|error| error.to_text());
        assert!(
            error
                .as_deref()
                .is_some_and(|message| message.contains(boundary)),
            "unexpected result: {error:?}"
        );
    }
    assert!(
        module_imports(
            "domain/main.mjs",
            "export default () => 'fetch() process.env RUNX_INPUTS_JSON';",
        )
        .is_ok(),
        "effect-like text inside a string is data, not executable plumbing"
    );
}

#[test]
fn imports_are_sorted_and_deduplicated() {
    let source = "import b from './b.mjs';\nimport a from './a.mjs';\nimport again from './b.mjs';\nexport * from './a.mjs';\n";
    assert_eq!(
        module_imports("domain/main.mjs", source),
        Ok(vec!["./a.mjs".to_owned(), "./b.mjs".to_owned()])
    );
}

#[test]
fn side_effect_import_and_member_import_are_distinguished() {
    assert_eq!(
        module_imports("domain/main.mjs", "import './setup.mjs';\nconst u = import.meta.url;\n"),
        Ok(vec!["./setup.mjs".to_owned()])
    );
}

#[test]
fn escaped_specifier_is_rejected() {
    let error = module_imports("domain/main.mjs", "import x from './a\\u002e.mjs';")
        .err()
        .map(|error| error.to_text());
    assert_eq!(
        error,
        Some("domain/main.mjs: JavaScript module specifiers must not use string escapes".to_owned())
    );
}

#[test]
fn from_must_name_a_plain_string() {
    let error = module_imports("domain/main.mjs", "import x from name;")
        .err()
        .map(|error| error.to_text());
    assert_eq!(
        error,
        Some(
            "domain/main.mjs: JavaScript import/export from must be followed by a plain string literal"
                .to_owned()
        )
    );
}

#[test]
fn unterminated_literals_report_their_byte_offset() {
    let comment = module_imports("m.mjs", "let a = 1; /* open").err().map(|e| e.to_text());
    assert_eq!(
        comment,
        Some("m.mjs: unterminated JavaScript block comment at byte 11".to_owned())
    );
    let string = module_imports("m.mjs", "let s = 'abc\n';").err().map(|e| e.to_text());
    assert_eq!(
        string,
        Some("m.mjs: unterminated JavaScript string at byte 8".to_owned())
    );
    let template = module_imports("m.mjs", "let t = `abc").err().map(|e| e.to_text());
    assert_eq!(
        template,
        Some("m.mjs: unterminated JavaScript template literal at byte 8".to_owned())
    );
}

#[test]
fn escaped_require_specifier_is_rejected() {
    let error = process_module_imports("run.cjs", "require('./a\\x2e.cjs');")
        .err()
        .map(|e| e.to_text());
    assert_eq!(
        error,
        Some("run.cjs: CommonJS require specifiers must not use string escapes".to_owned())
    );
}

#[test]
fn member_require_is_not_a_dependency() {
    assert_eq!(
        process_module_imports("run.cjs", "const x = module.require(name);\nimport y from 'node:path';"),
        Ok(vec!["node:path".to_owned()])
    );
}

#[test]
fn process_dependencies_come_only_from_specifier_positions() {
    let source = "// import \"x\";\nconst a = require(\"b\"); import c from \"d\";\nobj.require(\"e\");\nconst s = \"import 'f'\";\n/* require(\"g\") */\n";
    assert_eq!(
        process_module_imports("tools/t/run.mjs", source),
        Ok(vec!["b".to_owned(), "d".to_owned()])
    );
}

#[test]
fn an_escaped_specifier_is_never_a_dependency() {
    assert!(process_module_imports("tools/t/run.mjs", "import \"\\x62\";\n").is_err());
    assert!(process_module_imports("tools/t/run.mjs", "const b = require(\"\\u0062\");\n").is_err());
    assert_eq!(
        process_module_imports("tools/t/run.mjs", "const s = \"\\x62\"; import \"b\";\n"),
        Ok(vec!["b".to_owned()])
    );
}
