use seatbelt_policy::resolve::GlobHit;
use seatbelt_policy::seatbelt::{create_seatbelt_command_args, seatbelt_args, SandboxPolicy, WritableRoot};
use seatbelt_policy::sensitive_paths::SensitivePathConfig;
use seatbelt_policy::text::{decimal_string, path_less};

const BASE: &str = "(version 1)";

fn strings(items: &[&str]) -> Vec<String> {
    items.iter().map(|s| s.to_string()).collect()
}

const NETWORK: &str = "(allow network-outbound)\n(allow network-inbound)\n(allow system-socket)";
const READ: &str = "; allow read-only file operations\n(allow file-read*)";

#[test]
fn write_clause_with_carve_out() {
    let policy = SandboxPolicy::WorkspaceWrite {
        writable_roots: vec![],
        network_access: false,
        exclude_tmpdir_env_var: true,
        exclude_slash_tmp: true,
    };
    let roots = vec![
        WritableRoot {
            root: "/t/with_git".to_string(),
            read_only_subpaths: strings(&["/t/with_git/.git"]),
        },
        WritableRoot { root: "/t/no_git".to_string(), read_only_subpaths: vec![] },
    ];
    let args = seatbelt_args(strings(&["/bin/echo", "hello"]), &policy, &roots, &vec![], BASE);
    let expected_policy = format!(
        "{BASE}\n{READ}\n(allow file-write*\n(require-all (subpath (param \"WRITABLE_ROOT_0\")) (require-not (subpath (param \"WRITABLE_ROOT_0_RO_0\"))) ) (subpath (param \"WRITABLE_ROOT_1\"))\n)"
    );
    let expected = vec![
        "-p".to_string(),
        expected_policy,
        "-DWRITABLE_ROOT_0=/t/with_git".to_string(),
        "-DWRITABLE_ROOT_0_RO_0=/t/with_git/.git".to_string(),
        "-DWRITABLE_ROOT_1=/t/no_git".to_string(),
        "--".to_string(),
        "/bin/echo".to_string(),
        "hello".to_string(),
    ];
    assert_eq!(args, expected);
}

#[test]
fn sensitive_read_denies_cover_only_sensitive_file() {
    let config = SensitivePathConfig::default();
    let resolved = config.resolve_hits(
        "/w",
        &vec![
            GlobHit { absolute: "/w/.env.local".to_string(), canonical: "/w/.env.local".to_string() },
            GlobHit { absolute: "/w/.env.example".to_string(), canonical: "/w/.env.example".to_string() },
        ],
    );
    let args = seatbelt_args(strings(&["/bin/echo"]), &SandboxPolicy::ReadOnly, &vec![], &resolved, BASE);
    let expected_policy = format!(
        "{BASE}\n{READ}\n(deny file-read*\n    (path (param \"SENSITIVE_DENY_0\"))\n    (path (param \"SENSITIVE_DENY_1\"))\n    (path (param \"SENSITIVE_DENY_2\"))\n)"
    );
    let expected = vec![
        "-p".to_string(),
        expected_policy,
        "-DSENSITIVE_DENY_0=/w/.env.local".to_string(),
        "-DSENSITIVE_DENY_1=.env.local".to_string(),
        "-DSENSITIVE_DENY_2=./.env.local".to_string(),
        "--".to_string(),
        "/bin/echo".to_string(),
    ];
    assert_eq!(args, expected);
}

#[test]
fn full_access_has_no_read_deny() {
    let config = SensitivePathConfig::default();
    let resolved = config.resolve_hits(
        "/w",
        &vec![GlobHit { absolute: "/w/.env".to_string(), canonical: "/w/.env".to_string() }],
    );
    assert_eq!(resolved.len(), 1);
    let args = seatbelt_args(strings(&["ls"]), &SandboxPolicy::DangerFullAccess, &vec![], &resolved, BASE);
    let expected_policy = format!("{BASE}\n{READ}\n(allow file-write* (regex #\"^/\"))\n{NETWORK}");
    assert_eq!(args, vec!["-p".to_string(), expected_policy, "--".to_string(), "ls".to_string()]);
}

#[test]
fn network_section_only_with_network_access() {
    let with_net = SandboxPolicy::WorkspaceWrite {
        writable_roots: vec![],
        network_access: true,
        exclude_tmpdir_env_var: false,
        exclude_slash_tmp: false,
    };
    let args = seatbelt_args(vec![], &with_net, &vec![], &vec![], BASE);
    assert_eq!(args[1], format!("{BASE}\n{READ}\n{NETWORK}"));
    let args = seatbelt_args(vec![], &SandboxPolicy::ReadOnly, &vec![], &vec![], BASE);
    assert_eq!(args, vec!["-p".to_string(), format!("{BASE}\n{READ}"), "--".to_string()]);
}

#[test]
fn deny_strings_deduplicated_across_entries() {
    let config = SensitivePathConfig::default();
    let resolved = config.resolve_hits(
        "/w",
        &vec![
            GlobHit { absolute: "/w/.env".to_string(), canonical: "/w/.env.real".to_string() },
            GlobHit { absolute: "/w/.env".to_string(), canonical: "/w/.env".to_string() },
        ],
    );
    assert_eq!(resolved.len(), 2);
    let args = seatbelt_args(vec![], &SandboxPolicy::ReadOnly, &vec![], &resolved, BASE);
    let binds: Vec<&str> = args.iter().filter(|a| a.starts_with("-D")).map(|a| a.as_str()).collect();
    assert_eq!(
        binds,
        vec![
            "-DSENSITIVE_DENY_0=/w/.env",
            "-DSENSITIVE_DENY_1=.env",
            "-DSENSITIVE_DENY_2=./.env",
            "-DSENSITIVE_DENY_3=/w/.env.real",
            "-DSENSITIVE_DENY_4=.env.real",
            "-DSENSITIVE_DENY_5=./.env.real",
        ]
    );
}

#[test]
fn many_roots_get_decimal_indices() {
    let policy = SandboxPolicy::WorkspaceWrite {
        writable_roots: vec![],
        network_access: false,
        exclude_tmpdir_env_var: true,
        exclude_slash_tmp: true,
    };
    let roots: Vec<WritableRoot> = (0..12)
        .map(|i| WritableRoot { root: format!("/r{i}"), read_only_subpaths: vec![] })
        .collect();
    let args = seatbelt_args(vec![], &policy, &roots, &vec![], BASE);
    assert_eq!(args[13], "-DWRITABLE_ROOT_11=/r11");
    assert!(args[1].contains("(subpath (param \"WRITABLE_ROOT_10\"))"));
}

#[test]
fn decimal_and_order_helpers() {
    assert_eq!(decimal_string(0), "0");
    assert_eq!(decimal_string(12), "12");
    assert_eq!(decimal_string(305), "305");
    assert!(path_less("a", "b"));
    assert!(path_less("ab", "abc"));
    assert!(!path_less("abc", "ab"));
    assert!(!path_less("same", "same"));
    assert!(path_less("", "x"));
    assert!(path_less("/w/a/.env", "/w/a-b/.env"));
    assert!(!path_less("/w/a-b/.env", "/w/a/.env"));
    assert!(path_less("config/x", "config.d/y"));
    assert!(path_less("/x", "x"));
}

#[test]
fn compile_with_missing_paths_keeps_them_as_given() {
    let policy = SandboxPolicy::WorkspaceWrite {
        writable_roots: vec![],
        network_access: false,
        exclude_tmpdir_env_var: true,
        exclude_slash_tmp: true,
    };
    let roots = vec![WritableRoot {
        root: "/nonexistent-root-for-compile".to_string(),
        read_only_subpaths: strings(&["/nonexistent-root-for-compile/.git"]),
    }];
    let args = create_seatbelt_command_args(
        strings(&["true"]),
        &policy,
        "/nonexistent-cwd-for-compile",
        "/",
        &SensitivePathConfig::default(),
        &roots,
        BASE,
    );
    assert_eq!(args[2], "-DWRITABLE_ROOT_0=/nonexistent-root-for-compile");
    assert_eq!(args[3], "-DWRITABLE_ROOT_0_RO_0=/nonexistent-root-for-compile/.git");
    assert_eq!(args[4], "--");
}

#[test]
fn policy_capabilities() {
    let ww = SandboxPolicy::WorkspaceWrite {
        writable_roots: vec![],
        network_access: true,
        exclude_tmpdir_env_var: false,
        exclude_slash_tmp: false,
    };
    assert!(SandboxPolicy::DangerFullAccess.has_full_disk_write_access());
    assert!(!SandboxPolicy::ReadOnly.has_full_disk_write_access());
    assert!(!ww.has_full_disk_write_access());
    assert!(ww.has_full_network_access());
    assert!(!SandboxPolicy::ReadOnly.has_full_network_access());
    assert!(SandboxPolicy::ReadOnly.has_full_disk_read_access());
}
