use herdr_worktree_hooks_plugin::config::{Config, Section, DEFAULT_FRESH_WINDOW_SECS};

fn strings(list: &[&str]) -> Vec<String> {
    list.iter().map(|s| s.to_string()).collect()
}

fn section(copy: &[&str], run: &[&str], inherit: Option<bool>) -> Section {
    Section { copy: strings(copy), run: strings(run), inherit }
}

#[test]
fn missing_config_file_yields_builtin_env_defaults() {
    // A missing config.toml loads as the default configuration.
    let config = Config::default();
    assert_eq!(
        config.resolve("anything", "/repo", None).copy,
        vec![".env", ".env.local"]
    );
}

#[test]
fn absent_defaults_section_keeps_builtin_env_defaults() {
    // [repos.my-app]
    // copy = [".env.test"]
    let mut config = Config::new(None, None, None);
    config.insert_repo("my-app".to_string(), section(&[".env.test"], &[], None));
    assert_eq!(
        config.resolve("my-app", "/repo", None).copy,
        vec![".env", ".env.local", ".env.test"]
    );
}

#[test]
fn explicit_empty_defaults_disables_builtin_env_defaults() {
    // [defaults]
    // copy = []
    let config = Config::new(None, None, Some(section(&[], &[], None)));
    assert!(config.resolve("my-app", "/repo", None).copy.is_empty());
}

#[test]
fn repo_section_appends_to_defaults_without_duplicates() {
    let mut config = Config::new(None, None, Some(section(&[".env"], &["echo a"], None)));
    config.insert_repo(
        "my-app".to_string(),
        section(&[".env", ".env.test"], &["echo b"], None),
    );
    let resolved = config.resolve("my-app", "/repo", None);
    assert_eq!(resolved.copy, vec![".env", ".env.test"]);
    assert_eq!(resolved.run, vec!["echo a", "echo b"]);
}

#[test]
fn inherit_false_drops_defaults() {
    let mut config = Config::new(None, None, Some(section(&[".env"], &[], None)));
    config.insert_repo("my-app".to_string(), section(&[".env.test"], &[], Some(false)));
    assert_eq!(config.resolve("my-app", "/repo", None).copy, vec![".env.test"]);
}

#[test]
fn unmatched_repo_falls_back_to_defaults_only() {
    let mut config = Config::new(None, None, Some(section(&[".env"], &[], None)));
    config.insert_repo("other".to_string(), section(&[".secret"], &[], None));
    assert_eq!(config.resolve("my-app", "/repo", None).copy, vec![".env"]);
}

#[test]
fn absolute_path_key_matches_repo_root() {
    let mut config = Config::new(None, None, Some(section(&[], &[], None)));
    config.insert_repo(
        "/home/dev/src/github.com/acme/my-app".to_string(),
        section(&[".env.byroot"], &[], None),
    );
    let resolved = config.resolve("my-app", "/home/dev/src/github.com/acme/my-app", None);
    assert_eq!(resolved.copy, vec![".env.byroot"]);
}

#[test]
fn path_key_wins_over_name_key_for_same_repo() {
    let mut config = Config::new(None, None, Some(section(&[], &[], None)));
    config.insert_repo("my-app".to_string(), section(&[".env.byname"], &[], None));
    config.insert_repo(
        "/home/dev/src/github.com/acme/my-app".to_string(),
        section(&[".env.byroot"], &[], None),
    );
    let resolved = config.resolve("my-app", "/home/dev/src/github.com/acme/my-app", None);
    assert_eq!(resolved.copy, vec![".env.byroot"]);
}

#[test]
fn shell_defaults_to_configured_value() {
    let config = Config::new(Some("/bin/zsh".to_string()), None, None);
    assert_eq!(config.shell(Some("/usr/bin/fish")), "/bin/zsh");
}

#[test]
fn fresh_window_defaults_when_unset() {
    let config = Config::new(None, None, None);
    assert_eq!(config.fresh_window_secs(), DEFAULT_FRESH_WINDOW_SECS);
}

#[test]
fn shell_falls_back_to_environment_then_bin_sh() {
    let config = Config::default();
    assert_eq!(config.shell(Some("/usr/bin/fish")), "/usr/bin/fish");
    assert_eq!(config.shell(Some("")), "/bin/sh");
    assert_eq!(config.shell(None), "/bin/sh");
}

#[test]
fn configured_fresh_window_is_used() {
    let config = Config::new(None, Some(42), None);
    assert_eq!(config.fresh_window_secs(), 42);
    assert_eq!(DEFAULT_FRESH_WINDOW_SECS, 300);
}

#[test]
fn tilde_key_expands_to_home() {
    let mut config = Config::new(None, None, Some(section(&[], &[], None)));
    config.insert_repo("~/src/my-app".to_string(), section(&[".env.home"], &[], None));
    let resolved = config.resolve("other-name", "/home/dev/src/my-app", Some("/home/dev"));
    assert_eq!(resolved.copy, vec![".env.home"]);
    let unexpanded = config.resolve("other-name", "/home/dev/src/my-app", None);
    assert!(unexpanded.copy.is_empty());
}

#[test]
fn path_keys_compare_as_paths() {
    let mut config = Config::new(None, None, Some(section(&[], &[], None)));
    config.insert_repo("/srv//repos/./app/".to_string(), section(&["a"], &[], None));
    assert_eq!(config.resolve("x", "/srv/repos/app", None).copy, vec!["a"]);
    assert!(config.resolve("x", "/srv/repos/app2", None).copy.is_empty());
}

#[test]
fn first_path_key_in_key_order_wins() {
    let mut config = Config::new(None, None, Some(section(&[], &[], None)));
    config.insert_repo("/srv/repo/".to_string(), section(&["second"], &[], None));
    config.insert_repo("/srv/repo".to_string(), section(&["first"], &[], None));
    assert_eq!(config.resolve("x", "/srv/repo", None).copy, vec!["first"]);
}

#[test]
fn inserting_a_key_again_replaces_its_table() {
    let mut config = Config::new(None, None, Some(section(&[], &[], None)));
    config.insert_repo("my-app".to_string(), section(&["old"], &[], None));
    config.insert_repo("my-app".to_string(), section(&["new"], &[], None));
    assert_eq!(config.resolve("my-app", "/r", None).copy, vec!["new"]);
}

#[test]
fn inheriting_section_dedups_run_and_copy() {
    let mut config = Config::new(None, None, None);
    config.insert_repo(
        "app".to_string(),
        section(&[".env", ".env", "x"], &["a", "b", "a"], Some(true)),
    );
    let resolved = config.resolve("app", "/r", None);
    assert_eq!(resolved.copy, vec![".env", ".env.local", "x"]);
    assert_eq!(resolved.run, vec!["a", "b"]);
}
