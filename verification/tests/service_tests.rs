use tmignore::service::{generate_plist, get_log_dir, get_plist_path, label};
use tmignore::state::state_path;

#[test]
fn test_label() {
    assert_eq!(label(), "com.wassimk.tmignore");
}

#[test]
fn test_service_paths_exact() {
    assert_eq!(
        get_plist_path("/home/tester"),
        "/home/tester/Library/LaunchAgents/com.wassimk.tmignore.plist"
    );
    assert_eq!(get_log_dir("/home/tester"), "/home/tester/Library/Logs/tmignore");
    assert_eq!(state_path("/home/tester"), "/home/tester/.local/state/tmignore/state.json");
}

#[test]
fn test_generate_plist() {
    let plist = generate_plist("/usr/local/bin/tmignore", "/home/tester");
    assert!(plist.starts_with("<?xml version=\"1.0\" encoding=\"UTF-8\"?>"));
    assert!(plist.contains("<string>com.wassimk.tmignore</string>"));
    assert!(plist.contains("<string>/usr/local/bin/tmignore</string>"));
    assert!(plist.contains("<string>run</string>"));
    assert!(plist.contains("<integer>86400</integer>"));
    assert!(plist.contains("<string>/home/tester/Library/Logs/tmignore/stdout.log</string>"));
    assert!(plist.contains("<string>/home/tester/Library/Logs/tmignore/stderr.log</string>"));
    assert!(plist.ends_with("</plist>"));
}
