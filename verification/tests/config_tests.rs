use tmignore::config::{builtin_exclude_paths, config_path, contract_tilde, expand_tilde, Config};

#[test]
fn test_default_config() {
    let config = Config::default();
    assert_eq!(config.scan_roots, vec!["~"]);
    assert!(config.extra_exclude_paths.is_empty());
    assert!(config.disable_exclude_paths.is_empty());
    assert!(config.disable_patterns.is_empty());
    assert!(config.custom_patterns.is_empty());
}

#[test]
fn test_resolved_exclude_paths_includes_builtins() {
    let config = Config::default();
    let resolved = config.resolved_exclude_paths();
    assert!(resolved.contains(&"~/.rbenv".to_string()));
    assert!(resolved.contains(&"~/Library/Developer/Xcode/DerivedData".to_string()));
}

#[test]
fn test_resolved_exclude_paths_disable() {
    let config = Config {
        disable_exclude_paths: vec!["~/.cargo".to_string()],
        ..Config::default()
    };
    let resolved = config.resolved_exclude_paths();
    assert!(!resolved.contains(&"~/.cargo".to_string()));
    assert!(resolved.contains(&"~/.rbenv".to_string()));
}

#[test]
fn test_resolved_exclude_paths_extra() {
    let config = Config {
        extra_exclude_paths: vec!["~/Movies".to_string()],
        ..Config::default()
    };
    let resolved = config.resolved_exclude_paths();
    assert!(resolved.contains(&"~/Movies".to_string()));
    assert!(resolved.contains(&"~/.rbenv".to_string()));
}

#[test]
fn test_resolved_skip_paths_includes_system_and_excludes() {
    let config = Config::default();
    let resolved = config.resolved_skip_paths();
    // System paths
    assert!(resolved.contains(&"~/.Trash".to_string()));
    assert!(resolved.contains(&"~/Library".to_string()));
    // Exclude paths also get skipped
    assert!(resolved.contains(&"~/.rbenv".to_string()));
    assert!(resolved.contains(&"~/.cargo".to_string()));
}

#[test]
fn test_disabled_exclude_not_in_skip() {
    let config = Config {
        disable_exclude_paths: vec!["~/.cargo".to_string()],
        ..Config::default()
    };
    let resolved = config.resolved_skip_paths();
    // Disabled exclude path should NOT be skipped (scanner walks into it)
    assert!(!resolved.contains(&"~/.cargo".to_string()));
    // System paths still present
    assert!(resolved.contains(&"~/Library".to_string()));
}

#[test]
fn test_expand_tilde() {
    let home = "/home/tester";
    let expanded = expand_tilde(home, "~/Documents");
    assert!(!expanded.contains('~'));
    assert!(expanded.ends_with("/Documents"));

    let expanded_home = expand_tilde(home, "~");
    assert!(!expanded_home.contains('~'));

    let absolute = expand_tilde(home, "/usr/local");
    assert_eq!(absolute, "/usr/local".to_string());
}

#[test]
fn test_expand_tilde_exact() {
    assert_eq!(expand_tilde("/home/tester", "~/Documents"), "/home/tester/Documents");
    assert_eq!(expand_tilde("/home/tester", "~"), "/home/tester");
    assert_eq!(expand_tilde("/home/tester", "rel/path"), "rel/path");
}

#[test]
fn test_contract_tilde() {
    let home = "/home/tester";
    let contracted = contract_tilde(home, &format!("{home}/Documents"));
    assert_eq!(contracted, "~/Documents");

    let contracted_home = contract_tilde(home, home);
    assert_eq!(contracted_home, "~");

    let absolute = contract_tilde(home, "/usr/local");
    assert_eq!(absolute, "/usr/local");
}

#[test]
fn test_contract_tilde_no_boundary() {
    // A path that extends the home string without a separator stays as it is.
    assert_eq!(contract_tilde("/home/tester", "/home/testers/x"), "/home/testers/x");
}

#[test]
fn test_tilde_round_trip() {
    let home = "/home/tester";
    for p in ["~/Documents", "~", "~/a/b c/d"] {
        assert_eq!(contract_tilde(home, &expand_tilde(home, p)), p);
    }
}

#[test]
fn test_builtin_exclude_count() {
    assert!(builtin_exclude_paths().len() >= 20);
}

#[test]
fn test_builtin_excludes_distinct() {
    let builtins = builtin_exclude_paths();
    for i in 0..builtins.len() {
        for j in 0..i {
            assert_ne!(builtins[i], builtins[j]);
        }
    }
}

#[test]
fn test_resolver_idempotent() {
    let config = Config {
        extra_exclude_paths: vec!["~/Movies".to_string(), "~/Movies".to_string()],
        disable_exclude_paths: vec!["~/.cargo".to_string()],
        ..Config::default()
    };
    let first = config.resolved_exclude_paths();
    let second = config.resolved_exclude_paths();
    assert_eq!(first, second);
    let skip_first = config.resolved_skip_paths();
    let skip_second = config.resolved_skip_paths();
    assert_eq!(skip_first, skip_second);
}

#[test]
fn test_duplicate_extras_kept_once() {
    let config = Config {
        extra_exclude_paths: vec!["~/Movies".to_string(), "~/Movies".to_string()],
        ..Config::default()
    };
    let resolved = config.resolved_exclude_paths();
    assert_eq!(resolved.iter().filter(|p| p.as_str() == "~/Movies").count(), 1);
}

#[test]
fn test_config_path_exact() {
    assert_eq!(
        config_path("/home/tester"),
        "/home/tester/.config/tmignore/config.toml"
    );
}

#[test]
fn test_default_toml_nonempty() {
    let text = Config::default_toml();
    assert!(text.contains("scan_roots"));
    assert!(text.contains("extra_exclude_paths"));
}

#[test]
fn test_extra_overrides_disable() {
    // A disabled built-in supplied again as an extra comes back through the
    // extras pass: disabling filters only the built-in catalog.
    let config = Config {
        disable_exclude_paths: vec!["~/.cargo".to_string()],
        extra_exclude_paths: vec!["~/.cargo".to_string()],
        ..Config::default()
    };
    let resolved = config.resolved_exclude_paths();
    assert_eq!(resolved.iter().filter(|p| p.as_str() == "~/.cargo").count(), 1);
}
