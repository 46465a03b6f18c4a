use tmignore::config::CustomPattern;
use tmignore::patterns::{builtin_patterns, resolve_patterns};

#[test]
fn test_builtin_count() {
    let patterns = builtin_patterns();
    assert!(patterns.len() >= 35, "Expected at least 35 patterns, got {}", patterns.len());
}

#[test]
fn test_resolve_patterns_disable() {
    let patterns = resolve_patterns(&vec!["node".to_string(), "cargo".to_string()], &vec![]);
    assert!(!patterns.iter().any(|p| p.name == "node"));
    assert!(!patterns.iter().any(|p| p.name == "cargo"));
    assert!(patterns.iter().any(|p| p.name == "next"));
}

#[test]
fn test_resolve_patterns_custom() {
    let custom = vec![CustomPattern {
        name: "my-build".to_string(),
        directory: "dist".to_string(),
        sentinel: "turbo.json".to_string(),
    }];
    let patterns = resolve_patterns(&vec![], &custom);
    assert!(patterns.iter().any(|p| p.name == "my-build"));
}

#[test]
fn test_all_patterns_have_fields() {
    for p in builtin_patterns() {
        assert!(!p.name.is_empty(), "Pattern has empty name");
        assert!(!p.directory.is_empty(), "Pattern {} has empty directory", p.name);
        assert!(!p.sentinel.is_empty(), "Pattern {} has empty sentinel", p.name);
    }
}

#[test]
fn test_resolve_keeps_registry_order() {
    let patterns = resolve_patterns(&vec![], &vec![]);
    let builtins = builtin_patterns();
    assert_eq!(patterns.len(), builtins.len());
    for (a, b) in patterns.iter().zip(builtins.iter()) {
        assert_eq!(a.name, b.name);
        assert_eq!(a.directory, b.directory);
        assert_eq!(a.sentinel, b.sentinel);
    }
}

#[test]
fn test_disabled_name_custom_stays_active() {
    // Disabling a built-in by name does not touch a user pattern that
    // happens to reuse the name: user patterns are appended unchecked.
    let custom = vec![CustomPattern {
        name: "node".to_string(),
        directory: "web_modules".to_string(),
        sentinel: "package.json".to_string(),
    }];
    let patterns = resolve_patterns(&vec!["node".to_string()], &custom);
    let named_node: Vec<_> = patterns.iter().filter(|p| p.name == "node").collect();
    assert_eq!(named_node.len(), 1);
    assert_eq!(named_node[0].directory, "web_modules");
}

#[test]
fn test_pattern_from_custom() {
    let custom = CustomPattern {
        name: "my-build".to_string(),
        directory: "dist".to_string(),
        sentinel: "turbo.json".to_string(),
    };
    let p = tmignore::patterns::Pattern::from(&custom);
    assert_eq!(p.name, "my-build");
    assert_eq!(p.directory, "dist");
    assert_eq!(p.sentinel, "turbo.json");
}
