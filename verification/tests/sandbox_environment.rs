use runx::sandbox_env::{
    bubblewrap_args, env_set, input_env_name, input_env_names, javascript_worker_spawn_command,
    optional_cwd_policy, register_input_env_name, reject_runtime_input_env_collision,
    required_sandbox_profile, sandbox_private_tmp_enabled, set_private_tmp_env, CwdPolicy,
    SandboxProfile, SandboxRuntime,
};

fn lookup<'a>(env: &'a [(String, String)], key: &str) -> Option<&'a str> {
    env.iter().find(|(k, _)| k == key).map(|(_, v)| v.as_str())
}

#[test]
fn input_names_keep_ascii_alphanumerics_upper_cased() {
    assert_eq!(input_env_name("note"), "RUNX_INPUT_NOTE");
    assert_eq!(input_env_name("issue-title"), "RUNX_INPUT_ISSUE_TITLE");
    assert_eq!(input_env_name("--a..b--"), "RUNX_INPUT_A_B");
    assert_eq!(input_env_name("x9 y"), "RUNX_INPUT_X9_Y");
    assert_eq!(input_env_name("é"), "RUNX_INPUT_");
}

#[test]
fn colliding_input_keys_are_refused() {
    let mut names = Vec::new();
    assert!(register_input_env_name(&mut names, "RUNX_INPUT_A_B", "a-b").is_ok());
    assert_eq!(
        register_input_env_name(&mut names, "RUNX_INPUT_A_B", "a_b"),
        Err("input keys \"a-b\" and \"a_b\" collide on environment variable RUNX_INPUT_A_B".to_owned())
    );
    assert_eq!(names.len(), 1);
    let keys = vec!["a-b".to_owned(), "a.b".to_owned()];
    assert!(input_env_names(&keys, &vec![]).is_err());
}

#[test]
fn declared_environment_wins_over_input_variables() {
    let environment = vec![("RUNX_INPUT_NOTE".to_owned(), "declared".to_owned())];
    assert_eq!(
        reject_runtime_input_env_collision(&environment, "RUNX_INPUT_NOTE", "note"),
        Err("input \"note\" runtime environment variable RUNX_INPUT_NOTE collides with declared environment".to_owned())
    );
    assert!(reject_runtime_input_env_collision(&environment, "RUNX_INPUT_OTHER", "other").is_ok());
    let keys = vec!["note".to_owned()];
    assert!(input_env_names(&keys, &environment).is_err());
    let names = input_env_names(&vec!["note".to_owned(), "issue title".to_owned()], &vec![])
        .expect("distinct keys");
    assert_eq!(
        names,
        vec![
            ("RUNX_INPUT_NOTE".to_owned(), "RUNX_INPUT_NOTE_PATH".to_owned()),
            ("RUNX_INPUT_ISSUE_TITLE".to_owned(), "RUNX_INPUT_ISSUE_TITLE_PATH".to_owned()),
        ]
    );
}

#[test]
fn private_tmp_sets_all_three_variables() {
    let mut env = vec![
        ("HOME".to_owned(), "/home/op".to_owned()),
        ("TMP".to_owned(), "/tmp".to_owned()),
    ];
    set_private_tmp_env(&mut env, "/workspace/.runx/tmp/sandbox-1");
    assert_eq!(lookup(&env, "TMPDIR"), Some("/workspace/.runx/tmp/sandbox-1"));
    assert_eq!(lookup(&env, "TMP"), Some("/workspace/.runx/tmp/sandbox-1"));
    assert_eq!(lookup(&env, "TEMP"), Some("/workspace/.runx/tmp/sandbox-1"));
    assert_eq!(lookup(&env, "HOME"), Some("/home/op"));
    assert_eq!(env.len(), 4);
    env_set(&mut env, "HOME", "/root".to_owned());
    assert_eq!(lookup(&env, "HOME"), Some("/root"));
    assert_eq!(env.len(), 4);
}

#[test]
fn javascript_worker_runs_in_fresh_namespaces() {
    let args = bubblewrap_args("/opt/runx/worker");
    assert_eq!(args.len(), 33);
    assert_eq!(&args[0..4], &["--unshare-all", "--die-with-parent", "--proc", "/proc"]);
    assert_eq!(&args[8..11], &["--ro-bind-try", "/usr", "/usr"]);
    assert_eq!(
        &args[26..],
        &["--ro-bind", "/opt/runx/worker", "/opt/runx/worker", "--chdir", "/tmp", "--", "/opt/runx/worker"]
    );
}

#[test]
fn sandbox_declarations_name_known_profiles() {
    assert_eq!(required_sandbox_profile("workspace-write"), Ok(SandboxProfile::WorkspaceWrite));
    assert_eq!(
        required_sandbox_profile("root"),
        Err("sandbox.profile must be readonly, workspace-write, network, or unrestricted-local-dev.".to_owned())
    );
    assert_eq!(optional_cwd_policy(None), Ok(None));
    assert_eq!(optional_cwd_policy(Some("custom")), Ok(Some(CwdPolicy::Custom)));
    assert_eq!(
        optional_cwd_policy(Some("home")),
        Err("sandbox.cwd_policy must be skill-directory, workspace, or custom.".to_owned())
    );
}

#[test]
fn private_tmp_follows_profile_and_runtime() {
    let bwrap = SandboxRuntime::Bubblewrap { path: "/usr/bin/bwrap".to_owned() };
    assert!(sandbox_private_tmp_enabled(Some(SandboxProfile::Readonly), Some(&bwrap)));
    assert!(sandbox_private_tmp_enabled(Some(SandboxProfile::Readonly), None));
    assert!(!sandbox_private_tmp_enabled(Some(SandboxProfile::Readonly), Some(&SandboxRuntime::Direct)));
    assert!(!sandbox_private_tmp_enabled(Some(SandboxProfile::UnrestrictedLocalDev), Some(&bwrap)));
    assert!(!sandbox_private_tmp_enabled(None, Some(&bwrap)));
}

#[test]
fn javascript_worker_requires_a_real_backend() {
    let bwrap = SandboxRuntime::Bubblewrap { path: "/usr/bin/bwrap".to_owned() };
    let (command, args) = javascript_worker_spawn_command(Some(&bwrap), "/w").expect("bubblewrap");
    assert_eq!(command, "/usr/bin/bwrap");
    assert_eq!(args.last().map(String::as_str), Some("/w"));
    assert_eq!(
        javascript_worker_spawn_command(Some(&SandboxRuntime::Direct), "/w"),
        Err("deterministic JavaScript worker requires a real platform sandbox backend".to_owned())
    );
    assert!(javascript_worker_spawn_command(None, "/w").is_err());
}

#[test]
fn the_first_variable_collision_is_reported() {
    let keys = vec!["issue title".to_owned(), "issue-title".to_owned()];
    assert_eq!(
        input_env_names(&keys, &vec![]),
        Err("input keys \"issue title\" and \"issue-title\" collide on environment variable RUNX_INPUT_ISSUE_TITLE".to_owned())
    );
    let keys = vec!["a".to_owned(), "a path".to_owned()];
    assert_eq!(
        input_env_names(&keys, &vec![]),
        Err("input keys \"a\" and \"a path\" collide on environment variable RUNX_INPUT_A_PATH".to_owned())
    );
    let environment = vec![("RUNX_INPUT_NOTE_PATH".to_owned(), "declared".to_owned())];
    assert_eq!(
        input_env_names(&vec!["note".to_owned()], &environment),
        Err("input \"note\" runtime environment variable RUNX_INPUT_NOTE_PATH collides with declared environment".to_owned())
    );
}
