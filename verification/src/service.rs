//! Paths and launch-agent description for the background service that runs
//! the scan on a schedule. Installing and removing the agent is host glue and
//! lives outside the library; here stand the pure computations: the agent
//! label, its file locations, and the property-list text.

use vstd::prelude::*;

verus! {

/// The launch-agent label the service is registered under.
pub open spec fn spec_label() -> Seq<char> {
    ("com.wassimk.tmignore")@
}

pub fn label() -> (r: &'static str)
    ensures
        r@ == spec_label(),
{
    "com.wassimk.tmignore"
}

/// Where the agent's property list lives, relative to the home directory.
pub fn get_plist_path(home: &str) -> (r: String)
    ensures
        r@ == home@ + ("/Library/LaunchAgents/com.wassimk.tmignore.plist")@,
{
    home.to_owned().concat("/Library/LaunchAgents/com.wassimk.tmignore.plist")
}

/// Where the service's log files live, relative to the home directory.
pub fn get_log_dir(home: &str) -> (r: String)
    ensures
        r@ == home@ + ("/Library/Logs/tmignore")@,
{
    home.to_owned().concat("/Library/Logs/tmignore")
}

/// The property-list text that schedules `binary_path run` once a day and
/// sends its output to the log directory under `home`.
pub open spec fn spec_generate_plist(binary_path: Seq<char>, home: Seq<char>) -> Seq<char> {
    ("<?xml version=\"1.0\" encoding=\"UTF-8\"?>\n<!DOCTYPE plist PUBLIC \"-//Apple//DTD PLIST 1.0//EN\" \"http://www.apple.com/DTDs/PropertyList-1.0.dtd\">\n<plist version=\"1.0\">\n<dict>\n    <key>Label</key>\n    <string>com.wassimk.tmignore</string>\n    <key>ProgramArguments</key>\n    <array>\n        <string>")@
        + binary_path
        + ("</string>\n        <string>run</string>\n    </array>\n    <key>StartInterval</key>\n    <integer>86400</integer>\n    <key>StandardOutPath</key>\n    <string>")@
        + home + ("/Library/Logs/tmignore/stdout.log</string>\n    <key>StandardErrorPath</key>\n    <string>")@
        + home + ("/Library/Logs/tmignore/stderr.log</string>\n    <key>EnvironmentVariables</key>\n    <dict>\n        <key>PATH</key>\n        <string>/opt/homebrew/bin:/usr/local/bin:/usr/bin:/bin</string>\n    </dict>\n</dict>\n</plist>")@
}

pub fn generate_plist(binary_path: &str, home: &str) -> (r: String)
    ensures
        r@ == spec_generate_plist(binary_path@, home@),
{
    let mut r: String = ("<?xml version=\"1.0\" encoding=\"UTF-8\"?>\n<!DOCTYPE plist PUBLIC \"-//Apple//DTD PLIST 1.0//EN\" \"http://www.apple.com/DTDs/PropertyList-1.0.dtd\">\n<plist version=\"1.0\">\n<dict>\n    <key>Label</key>\n    <string>com.wassimk.tmignore</string>\n    <key>ProgramArguments</key>\n    <array>\n        <string>").to_owned();
    r.append(binary_path);
    r.append("</string>\n        <string>run</string>\n    </array>\n    <key>StartInterval</key>\n    <integer>86400</integer>\n    <key>StandardOutPath</key>\n    <string>");
    r.append(home);
    r.append("/Library/Logs/tmignore/stdout.log</string>\n    <key>StandardErrorPath</key>\n    <string>");
    r.append(home);
    r.append("/Library/Logs/tmignore/stderr.log</string>\n    <key>EnvironmentVariables</key>\n    <dict>\n        <key>PATH</key>\n        <string>/opt/homebrew/bin:/usr/local/bin:/usr/bin:/bin</string>\n    </dict>\n</dict>\n</plist>");
    r
}

} // verus!
