use seatbelt_policy::resolve::{absolute_cwd, glob_pattern, or_same, GlobHit, ResolvedSensitivePath};
use seatbelt_policy::sensitive_paths::{
    is_absolute_pattern, is_path_token_char, normalize_candidate, normalize_path, SensitivePathConfig,
    SensitivePathsToml,
};

fn strings(items: &[&str]) -> Vec<String> {
    items.iter().map(|s| s.to_string()).collect()
}

fn hit(absolute: &str, canonical: &str) -> GlobHit {
    GlobHit {
        absolute: absolute.to_string(),
        canonical: canonical.to_string(),
    }
}

#[test]
fn default_blocks_env_allows_example() {
    let config = SensitivePathConfig::default();
    assert!(config.is_path_sensitive(".env"));
    assert!(config.is_path_sensitive("sub/.env.local"));
    assert!(!config.is_path_sensitive(".env.example"));
}

#[test]
fn allow_pattern_overrides_deny() {
    let config = SensitivePathConfig::from_toml(Some(SensitivePathsToml {
        deny: vec!["**/secrets.json".to_string()],
        allow: vec!["public/secrets.json".to_string()],
    }));

    assert!(config.is_path_sensitive("foo/secrets.json"));
    assert!(!config.is_path_sensitive("public/secrets.json"));
}

#[test]
fn string_candidate_normalized() {
    let config = SensitivePathConfig::default();
    assert!(config.is_candidate_sensitive("directory\\.env"));
    assert!(!config.is_candidate_sensitive("README.md"));
}

#[test]
fn resolve_hits_include_relative_variants() {
    let config = SensitivePathConfig::from_lists(strings(&[".env.secret"]), strings(&[".env.example"]));
    let resolved = config.resolve_hits("/work", &vec![hit("/work/.env.secret", "/work/.env.secret")]);
    assert_eq!(resolved.len(), 1);
    let entry = &resolved[0];
    assert_eq!(entry.canonical, "/work/.env.secret");
    assert_eq!(entry.relative, Some(".env.secret".to_string()));
    let variants = entry.variants();
    assert!(variants.contains(&"/work/.env.secret".to_string()));
    assert!(variants.contains(&".env.secret".to_string()));
    assert!(variants.contains(&"./.env.secret".to_string()));
}

#[test]
fn variants_in_fixed_order() {
    let entry = ResolvedSensitivePath {
        absolute: "/link/.env".to_string(),
        canonical: "/real/.env".to_string(),
        relative: Some("sub/.env".to_string()),
    };
    assert_eq!(entry.variants(), strings(&["/link/.env", "/real/.env", "sub/.env", "./sub/.env"]));
    let plain = ResolvedSensitivePath {
        absolute: "/real/.env".to_string(),
        canonical: "/real/.env".to_string(),
        relative: None,
    };
    assert_eq!(plain.variants(), strings(&["/real/.env"]));
}

#[test]
fn allow_exempts_hit_during_resolution() {
    let config = SensitivePathConfig::default();
    let resolved = config.resolve_hits(
        "/w",
        &vec![hit("/w/.env.example", "/w/.env.example"), hit("/w/.env.local", "/w/.env.local")],
    );
    assert_eq!(resolved.len(), 1);
    assert_eq!(resolved[0].absolute, "/w/.env.local");
}

#[test]
fn resolution_sorts_and_drops_duplicates() {
    let config = SensitivePathConfig::default();
    let resolved = config.resolve_hits(
        "/w",
        &vec![
            hit("/w/b/.env", "/w/b/.env"),
            hit("/w/a/.env", "/w/a/.env"),
            hit("/w/b/.env", "/w/b/.env"),
            hit("/outside/.env", "/outside/.env"),
            hit("/w/a/.env", "/w/a/.env"),
        ],
    );
    let absolutes: Vec<&str> = resolved.iter().map(|e| e.absolute.as_str()).collect();
    assert_eq!(absolutes, vec!["/outside/.env", "/w/a/.env", "/w/b/.env"]);
    assert_eq!(resolved[0].relative, None);
    assert_eq!(resolved[1].relative, Some("a/.env".to_string()));
}

#[test]
fn resolve_paths_on_missing_directory_finds_nothing() {
    let config = SensitivePathConfig::default();
    let resolved = config.resolve_paths("/nonexistent-dir-for-resolution/xyz", "/");
    assert!(resolved.is_empty());
}

#[test]
fn absolute_allow_entries_are_dropped() {
    let config = SensitivePathConfig::from_lists(
        strings(&["*.pem"]),
        strings(&["/etc/key.pem", "\\\\server\\key.pem", "C:key.pem", "~", "~/key.pem", "local.pem"]),
    );
    assert!(config.is_path_sensitive("/etc/key.pem"));
    assert!(config.is_path_sensitive("other.pem"));
    assert!(!config.is_path_sensitive("local.pem"));
    assert_eq!(config.deny_patterns(), &["*.pem".to_string()][..]);
}

#[test]
fn absolute_pattern_forms() {
    assert!(is_absolute_pattern("/etc/passwd"));
    assert!(is_absolute_pattern("\\\\server\\share"));
    assert!(is_absolute_pattern("C:\\secrets"));
    assert!(is_absolute_pattern("d:"));
    assert!(is_absolute_pattern("~"));
    assert!(is_absolute_pattern("~/.ssh"));
    assert!(!is_absolute_pattern("~user/x"));
    assert!(!is_absolute_pattern(".env.example"));
    assert!(!is_absolute_pattern(""));
    assert!(!is_absolute_pattern("1:x"));
}

#[test]
fn candidate_tokens_are_scanned() {
    let config = SensitivePathConfig::default();
    assert!(config.is_candidate_sensitive("cat:.env"));
    assert!(config.is_candidate_sensitive("--file=.env.prod --verbose"));
    assert!(!config.is_candidate_sensitive("cat:.env.example"));
    assert!(!config.is_candidate_sensitive(""));
}

#[test]
fn normalization_and_token_chars() {
    assert_eq!(normalize_candidate("a\\b\\c"), "a/b/c");
    assert_eq!(normalize_candidate("plain"), "plain");
    assert!(is_path_token_char('a'));
    assert!(is_path_token_char('Z'));
    assert!(is_path_token_char('7'));
    assert!(is_path_token_char('/'));
    assert!(is_path_token_char('-'));
    assert!(!is_path_token_char(':'));
    assert!(!is_path_token_char(' '));
    assert!(!is_path_token_char('é'));
}

#[test]
fn allow_wins_over_deny_for_same_path() {
    let config = SensitivePathConfig::from_lists(strings(&["*.key"]), strings(&["*.key"]));
    assert!(!config.is_path_sensitive("id.key"));
    assert!(!config.is_path_sensitive("dir/id.key"));
}

#[test]
fn resolve_paths_finds_root_on_disk() {
    let config = SensitivePathConfig::from_lists(strings(&["/"]), vec![]);
    let resolved = config.resolve_paths("/", "/");
    assert_eq!(resolved.len(), 1);
    assert_eq!(resolved[0].absolute, "/");
    assert_eq!(resolved[0].canonical, "/");
    assert_eq!(resolved[0].relative, Some(String::new()));
    assert_eq!(resolved[0].variants(), strings(&["/", "", "./"]));
}

#[test]
fn normalize_path_gives_text_and_file_name() {
    assert_eq!(normalize_path("a\\b/c.txt"), ("a/b/c.txt".to_string(), Some("c.txt".to_string())));
    assert_eq!(normalize_path("dir/.."), ("dir/..".to_string(), None));
}

#[test]
fn glob_inputs_are_built_from_working_directory() {
    assert_eq!(absolute_cwd("/abs/dir", "/cur"), "/abs/dir");
    assert_eq!(absolute_cwd("rel/dir", "/cur"), "/cur/rel/dir");
    assert_eq!(glob_pattern("/w", ".env.*"), "/w/.env.*");
    assert_eq!(glob_pattern("/w", "/etc/secret"), "/etc/secret");
    let config = SensitivePathConfig::from_lists(strings(&[".env", "/abs/key", "sub/*.pem"]), vec![]);
    assert_eq!(config.glob_patterns("/w"), strings(&["/w/.env", "/abs/key", "/w/sub/*.pem"]));
}

#[test]
fn canonical_fallback_keeps_path() {
    let path = "/p".to_string();
    assert_eq!(or_same(Some("/real/p".to_string()), &path), "/real/p");
    assert_eq!(or_same(None, &path), "/p");
}

#[test]
fn empty_deny_list_resolves_nothing() {
    let config = SensitivePathConfig::from_lists(vec![], vec![]);
    assert!(config.resolve_paths("/etc", "/").is_empty());
}

#[test]
fn default_allow_keeps_example() {
    let config = SensitivePathConfig::default();
    assert!(!config.is_candidate_sensitive(".env.example"));
    assert_eq!(config.deny_patterns(), &[".env".to_string(), ".env.*".to_string()][..]);
}

#[test]
fn resolution_orders_paths_by_component() {
    let config = SensitivePathConfig::default();
    let resolved = config.resolve_hits(
        "/w",
        &vec![hit("/w/a-b/.env", "/w/a-b/.env"), hit("/w/a/.env", "/w/a/.env")],
    );
    let absolutes: Vec<&str> = resolved.iter().map(|e| e.absolute.as_str()).collect();
    assert_eq!(absolutes, vec!["/w/a/.env", "/w/a-b/.env"]);
}
