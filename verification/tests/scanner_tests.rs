use tmignore::config::{builtin_exclude_paths, Config};
use tmignore::patterns::Pattern;
use tmignore::scanner::{
    build_directory_index, build_skip_set, scan_optimized, sentinel_exists, FsDir, RootSnapshot,
};

fn strings(names: &[&str]) -> Vec<String> {
    names.iter().map(|s| s.to_string()).collect()
}

fn leaf(name: &str, files: &[&str]) -> FsDir {
    FsDir { name: name.to_string(), files: strings(files), subdirs: vec![] }
}

fn node(name: &str, files: &[&str], subdirs: Vec<FsDir>) -> FsDir {
    FsDir { name: name.to_string(), files: strings(files), subdirs }
}

/// A configuration whose built-in exclude paths are all disabled, so the
/// skip set holds only system paths and whatever extras the test adds.
fn quiet_config() -> Config {
    let disable_all: Vec<String> = builtin_exclude_paths().iter().map(|s| s.to_string()).collect();
    Config { disable_exclude_paths: disable_all, ..Config::default() }
}

#[test]
fn test_sentinel_exists_exact() {
    let entries = strings(&["package.json", "src"]);
    assert!(sentinel_exists(&entries, "package.json"));
    assert!(!sentinel_exists(&entries, "Cargo.toml"));
}

#[test]
fn test_sentinel_exists_glob() {
    let entries = strings(&["MyApp.csproj", "Program.cs"]);
    assert!(sentinel_exists(&entries, "*.csproj"));
    assert!(!sentinel_exists(&entries, "*.fsproj"));
}

#[test]
fn test_scan_finds_node_modules() {
    let config = quiet_config();
    let patterns = vec![Pattern::new("node", "node_modules", "package.json")];
    let tree = node(
        "scanroot",
        &[],
        vec![node(
            "myproject",
            &["package.json"],
            vec![node("node_modules", &[], vec![leaf(".package-lock.json", &[])])],
        )],
    );
    let roots = vec![RootSnapshot {
        path: "/tmp/scanroot".to_string(),
        parent_entries: vec![],
        dir: tree,
    }];
    let matches = scan_optimized(&config, &patterns, "/home/tester", &roots, &vec![]);
    assert!(matches.iter().any(|m| m.pattern_name == "node" && m.path.ends_with("node_modules")));
}

#[test]
fn test_scan_prunes_matched_directory() {
    // A matched dependency directory is reported once and never entered:
    // nothing under node_modules appears, however matchable.
    let config = quiet_config();
    let patterns = vec![Pattern::new("node", "node_modules", "package.json")];
    let inner = node(
        "pkg",
        &["package.json"],
        vec![node("node_modules", &[], vec![leaf("file.js", &[])])],
    );
    let tree = node(
        "root",
        &[],
        vec![node("proj", &["package.json"], vec![node("node_modules", &[], vec![inner])])],
    );
    let roots =
        vec![RootSnapshot { path: "/r".to_string(), parent_entries: vec![], dir: tree }];
    let matches = scan_optimized(&config, &patterns, "/home/tester", &roots, &vec![]);
    assert_eq!(matches.len(), 1);
    assert_eq!(matches[0].path, "/r/proj/node_modules");
    assert_eq!(matches[0].pattern_name, "node");
}

#[test]
fn test_scan_sentinel_missing_no_match() {
    // The same tree without package.json in the parent gives no match.
    let config = quiet_config();
    let patterns = vec![Pattern::new("node", "node_modules", "package.json")];
    let tree = node(
        "root",
        &[],
        vec![node("proj", &["README.md"], vec![node("node_modules", &[], vec![leaf("pkg", &[])])])],
    );
    let roots =
        vec![RootSnapshot { path: "/r".to_string(), parent_entries: vec![], dir: tree }];
    let matches = scan_optimized(&config, &patterns, "/home/tester", &roots, &vec![]);
    assert!(matches.is_empty());
}

#[test]
fn test_scan_glob_sentinel() {
    let config = quiet_config();
    let patterns = vec![Pattern::new("dotnet-bin", "bin", "*.csproj")];
    let hit = node("root", &[], vec![node("proj", &["App.csproj"], vec![leaf("bin", &[])])]);
    let roots = vec![RootSnapshot { path: "/r".to_string(), parent_entries: vec![], dir: hit }];
    let matches = scan_optimized(&config, &patterns, "/home/tester", &roots, &vec![]);
    assert_eq!(matches.len(), 1);
    assert_eq!(matches[0].path, "/r/proj/bin");
    assert_eq!(matches[0].pattern_name, "dotnet-bin");

    let miss = node("root", &[], vec![node("proj", &["App.fsproj"], vec![leaf("bin", &[])])]);
    let roots = vec![RootSnapshot { path: "/r".to_string(), parent_entries: vec![], dir: miss }];
    let matches = scan_optimized(&config, &patterns, "/home/tester", &roots, &vec![]);
    assert!(matches.is_empty());
}

#[test]
fn test_scan_first_sentinel_wins() {
    // Two registry entries share the directory basename; the earlier one
    // whose sentinel is present names the match.
    let config = quiet_config();
    let patterns = vec![
        Pattern::new("composer", "vendor", "composer.json"),
        Pattern::new("bundler", "vendor", "Gemfile"),
    ];
    let tree = node(
        "root",
        &[],
        vec![node("proj", &["Gemfile"], vec![leaf("vendor", &[])])],
    );
    let roots =
        vec![RootSnapshot { path: "/r".to_string(), parent_entries: vec![], dir: tree }];
    let matches = scan_optimized(&config, &patterns, "/home/tester", &roots, &vec![]);
    assert_eq!(matches.len(), 1);
    assert_eq!(matches[0].pattern_name, "bundler");
}

#[test]
fn test_skip_set_blocks_descent() {
    // ~/.cargo is in the skip set; a matchable target directory inside it
    // is never reached.
    let home = "/home/tester";
    let mut config = quiet_config();
    config.extra_exclude_paths = vec!["~/.cargo".to_string()];
    let skip = build_skip_set(&config, home);
    assert!(skip.contains(&"/home/tester/.cargo".to_string()));

    let patterns = vec![Pattern::new("cargo", "target", "Cargo.toml")];
    let cargo_dir = node(
        ".cargo",
        &[],
        vec![node(
            "registry",
            &[],
            vec![node("src", &[], vec![node("proj", &["Cargo.toml"], vec![leaf("target", &[])])])],
        )],
    );
    let tree = node("tester", &[], vec![cargo_dir]);
    let roots =
        vec![RootSnapshot { path: home.to_string(), parent_entries: vec![], dir: tree }];
    // One resolved exclude path (~/.cargo); report it as absent on disk so
    // only the tree walk speaks.
    let matches = scan_optimized(&config, &patterns, home, &roots, &vec![false]);
    assert!(matches.is_empty());
}

#[test]
fn test_exclude_path_reported_once() {
    // An extra exclude path that exists is tagged exactly once, although
    // the tree walk also passes the same directory.
    let home = "/home/tester";
    let mut config = quiet_config();
    config.extra_exclude_paths = vec!["~/proj/node_modules".to_string()];
    let patterns = vec![Pattern::new("node", "node_modules", "package.json")];
    let tree = node(
        "tester",
        &[],
        vec![node("proj", &["package.json"], vec![leaf("node_modules", &[])])],
    );
    let roots =
        vec![RootSnapshot { path: home.to_string(), parent_entries: vec![], dir: tree }];
    let matches = scan_optimized(&config, &patterns, home, &roots, &vec![true]);
    let tagged: Vec<_> = matches.iter().filter(|m| m.pattern_name == "exclude_path").collect();
    assert_eq!(tagged.len(), 1);
    assert_eq!(tagged[0].path, "/home/tester/proj/node_modules");
    // The skip-set check comes before the pattern check, so the directory
    // is not double-reported by the walk.
    assert_eq!(matches.len(), 1);
}

#[test]
fn test_exclude_path_absent_not_reported() {
    let home = "/home/tester";
    let mut config = quiet_config();
    config.extra_exclude_paths = vec!["~/gone".to_string()];
    let roots: Vec<RootSnapshot> = vec![];
    let matches = scan_optimized(&config, &vec![], home, &roots, &vec![false]);
    assert!(matches.is_empty());
}

#[test]
fn test_directory_index_groups_shared_basenames() {
    let patterns = vec![
        Pattern::new("composer", "vendor", "composer.json"),
        Pattern::new("cargo", "target", "Cargo.toml"),
        Pattern::new("bundler", "vendor", "Gemfile"),
    ];
    let index = build_directory_index(&patterns);
    let vendor = index.entries.iter().find(|e| e.directory == "vendor").unwrap();
    assert_eq!(vendor.indices, vec![0usize, 2usize]);
    let target = index.entries.iter().find(|e| e.directory == "target").unwrap();
    assert_eq!(target.indices, vec![1usize]);
    assert_eq!(index.entries.len(), 2);
}

#[test]
fn test_skip_wins_over_pattern_match() {
    // A directory that is both in the skip set and would pattern-match is
    // skipped, not reported: the skip check comes first.
    let home = "/home/tester";
    let mut config = quiet_config();
    config.extra_exclude_paths = vec!["~/proj/node_modules".to_string()];
    let patterns = vec![Pattern::new("node", "node_modules", "package.json")];
    let tree = node(
        "tester",
        &[],
        vec![node("proj", &["package.json"], vec![leaf("node_modules", &[])])],
    );
    let roots =
        vec![RootSnapshot { path: home.to_string(), parent_entries: vec![], dir: tree }];
    // Report the exclude path as absent so only the tree walk speaks.
    let matches = scan_optimized(&config, &patterns, home, &roots, &vec![false]);
    assert!(matches.is_empty());
}

#[test]
fn test_invalid_glob_sentinel_matches_nothing() {
    // A sentinel holding an unclosed bracket is an invalid glob; it matches
    // no entry, not even the literal spelling.
    let entries = strings(&["[", "[abc"]);
    assert!(!sentinel_exists(&entries, "["));
}
