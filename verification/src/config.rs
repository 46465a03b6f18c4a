//! Configuration data and the exclusion-path resolver: the built-in exclude
//! catalog, user overrides, and the layered resolution policy that merges
//! them into the effective exclude and skip lists.
//!
//! Paths are compared in their unexpanded, tilde-shorthand string form: the
//! disable and dedup checks are plain string equality, not path equality.

use vstd::prelude::*;
use crate::patterns::PatternModel;
use crate::text::contains_string;

verus! {

/// A user-defined ecosystem signature, as it appears in the configuration.
#[derive(Debug)]
pub struct CustomPattern {
    pub name: String,
    pub directory: String,
    pub sentinel: String,
}

impl DeepView for CustomPattern {
    type V = PatternModel;

    open spec fn deep_view(&self) -> PatternModel {
        PatternModel { name: self.name@, directory: self.directory@, sentinel: self.sentinel@ }
    }
}

impl Clone for CustomPattern {
    fn clone(&self) -> (r: Self)
        ensures
            r.deep_view() == self.deep_view(),
    {
        CustomPattern {
            name: self.name.clone(),
            directory: self.directory.clone(),
            sentinel: self.sentinel.clone(),
        }
    }
}

/// The run configuration: which roots to scan and how the user has tuned the
/// pattern registry and the exclude-path catalog.
#[derive(Debug)]
pub struct Config {
    pub scan_roots: Vec<String>,
    /// Additional paths to exclude from backups (on top of built-ins).
    pub extra_exclude_paths: Vec<String>,
    /// Built-in exclude paths to disable (these will be backed up normally).
    pub disable_exclude_paths: Vec<String>,
    pub disable_patterns: Vec<String>,
    pub custom_patterns: Vec<CustomPattern>,
}

pub fn default_scan_roots() -> (r: Vec<String>)
    ensures
        r.deep_view() =~= seq![("~")@],
{
    let mut v: Vec<String> = Vec::new();
    v.push("~".to_owned());
    v
}

/// System directories the scanner should never walk into.
/// These are not excluded from backups, just skipped for scanning.
pub open spec fn spec_system_skip_paths() -> Seq<Seq<char>> {
    seq![
        ("~/.Trash")@,
        ("~/Library")@,
        ("/System")@,
        ("/Library")@,
    ]
}

fn system_skip_paths() -> (r: Vec<&'static str>)
    ensures
        r.deep_view() == spec_system_skip_paths(),
{
    let mut v: Vec<&'static str> = Vec::new();
    v.push("~/.Trash");
    v.push("~/Library");
    v.push("/System");
    v.push("/Library");
    assert(v.deep_view() =~~= spec_system_skip_paths());
    v
}

/// The fixed catalog of built-in paths to exclude from backups: large, fully
/// regenerable directories, in catalog order.
pub open spec fn spec_builtin_exclude_paths() -> Seq<Seq<char>> {
    seq![
        ("~/.rbenv")@,
        ("~/.pyenv")@,
        ("~/.nvm")@,
        ("~/.asdf")@,
        ("~/.local/share/mise")@,
        ("~/.rustup")@,
        ("~/.cargo")@,
        ("~/.gradle")@,
        ("~/.m2")@,
        ("~/.npm")@,
        ("~/.pnpm-store")@,
        ("~/.cocoapods")@,
        ("~/.nuget")@,
        ("~/go/pkg")@,
        ("~/.gem")@,
        ("~/.hex")@,
        ("~/.cpan")@,
        ("~/.bun")@,
        ("~/.deno")@,
        ("~/.yarn")@,
        ("~/.npm-global")@,
        ("~/.cache/node")@,
        ("/opt/homebrew")@,
        ("/nix")@,
        ("~/.cache/nix")@,
        ("~/.local/share/devbox")@,
        ("~/Library/Containers/com.docker.docker")@,
        ("~/.colima")@,
        ("~/.lima")@,
        ("~/Library/Developer/Xcode/DerivedData")@,
        ("~/Library/Developer/Xcode/iOS DeviceSupport")@,
        ("~/Library/Developer/Xcode/watchOS DeviceSupport")@,
        ("~/Library/Developer/Xcode/tvOS DeviceSupport")@,
        ("~/Library/Developer/CoreSimulator/Devices")@,
    ]
}

/// Built-in paths to exclude from backups.
/// They are also automatically skipped during scanning.
#[verifier::rlimit(40)]
pub fn builtin_exclude_paths() -> (r: Vec<&'static str>)
    ensures
        r.deep_view() == spec_builtin_exclude_paths(),
{
    let mut v: Vec<&'static str> = Vec::new();
    v.push("~/.rbenv");
    v.push("~/.pyenv");
    v.push("~/.nvm");
    v.push("~/.asdf");
    v.push("~/.local/share/mise");
    v.push("~/.rustup");
    v.push("~/.cargo");
    v.push("~/.gradle");
    v.push("~/.m2");
    v.push("~/.npm");
    v.push("~/.pnpm-store");
    v.push("~/.cocoapods");
    v.push("~/.nuget");
    v.push("~/go/pkg");
    v.push("~/.gem");
    v.push("~/.hex");
    v.push("~/.cpan");
    v.push("~/.bun");
    v.push("~/.deno");
    v.push("~/.yarn");
    v.push("~/.npm-global");
    v.push("~/.cache/node");
    v.push("/opt/homebrew");
    v.push("/nix");
    v.push("~/.cache/nix");
    v.push("~/.local/share/devbox");
    v.push("~/Library/Containers/com.docker.docker");
    v.push("~/.colima");
    v.push("~/.lima");
    v.push("~/Library/Developer/Xcode/DerivedData");
    v.push("~/Library/Developer/Xcode/iOS DeviceSupport");
    v.push("~/Library/Developer/Xcode/watchOS DeviceSupport");
    v.push("~/Library/Developer/Xcode/tvOS DeviceSupport");
    v.push("~/Library/Developer/CoreSimulator/Devices");
    assert(v.deep_view() =~~= spec_builtin_exclude_paths());
    v
}

/// The members of `paths` that are not in `disabled`, in order.
pub open spec fn spec_keep_paths(paths: Seq<Seq<char>>, disabled: Seq<Seq<char>>) -> Seq<Seq<char>>
    decreases paths.len(),
{
    if paths.len() == 0 {
        Seq::empty()
    } else {
        let rest = spec_keep_paths(paths.drop_last(), disabled);
        if disabled.contains(paths.last()) {
            rest
        } else {
            rest.push(paths.last())
        }
    }
}

/// `acc` followed by each member of `extras` not already present, in order;
/// repeated extras are appended once.
pub open spec fn spec_append_missing(acc: Seq<Seq<char>>, extras: Seq<Seq<char>>) -> Seq<Seq<char>>
    decreases extras.len(),
{
    if extras.len() == 0 {
        acc
    } else {
        let p = spec_append_missing(acc, extras.drop_last());
        if p.contains(extras.last()) {
            p
        } else {
            p.push(extras.last())
        }
    }
}

/// The effective exclude paths: built-ins minus disabled, then each extra
/// not already present.
pub open spec fn spec_resolved_exclude_paths(disabled: Seq<Seq<char>>, extras: Seq<Seq<char>>) -> Seq<Seq<char>> {
    spec_append_missing(spec_keep_paths(spec_builtin_exclude_paths(), disabled), extras)
}

/// The paths the scanner skips: system paths, then each resolved exclude
/// path not already present.
pub open spec fn spec_resolved_skip_paths(disabled: Seq<Seq<char>>, extras: Seq<Seq<char>>) -> Seq<Seq<char>> {
    spec_append_missing(spec_system_skip_paths(), spec_resolved_exclude_paths(disabled, extras))
}

/// Append to `r` every member of `extras` that `r` does not already hold.
fn push_missing(r: &mut Vec<String>, extras: &Vec<String>)
    ensures
        final(r).deep_view() == spec_append_missing(old(r).deep_view(), extras.deep_view()),
{
    let mut j: usize = 0;
    while j < extras.len()
        invariant
            0 <= j <= extras.len(),
            r.deep_view() == spec_append_missing(old(r).deep_view(), extras.deep_view().take(j as int)),
        decreases extras.len() - j,
    {
        let ghost pre = extras.deep_view().take(j as int);
        let ghost cur = extras.deep_view().take(j as int + 1);
        proof {
            assert(cur.drop_last() =~= pre);
            assert(cur.last() == extras.deep_view()[j as int]);
            assert(extras.deep_view()[j as int] == extras@[j as int]@);
        }
        if !contains_string(r, &extras[j]) {
            let ghost old_dv = r.deep_view();
            r.push(extras[j].clone());
            proof {
                assert(r.deep_view() =~= old_dv.push(extras@[j as int]@));
            }
        }
        j = j + 1;
    }
    proof {
        assert(extras.deep_view().take(extras.len() as int) =~= extras.deep_view());
    }
}

impl Config {
    /// Resolve effective exclude paths: built-ins minus disabled, plus extras.
    pub fn resolved_exclude_paths(&self) -> (r: Vec<String>)
        ensures
            r.deep_view() == spec_resolved_exclude_paths(
                self.disable_exclude_paths.deep_view(),
                self.extra_exclude_paths.deep_view(),
            ),
    {
        let builtins = builtin_exclude_paths();
        let mut r: Vec<String> = Vec::new();
        let mut i: usize = 0;
        while i < builtins.len()
            invariant
                0 <= i <= builtins.len(),
                builtins.deep_view() == spec_builtin_exclude_paths(),
                r.deep_view() == spec_keep_paths(
                    spec_builtin_exclude_paths().take(i as int),
                    self.disable_exclude_paths.deep_view(),
                ),
            decreases builtins.len() - i,
        {
            let ghost pre = spec_builtin_exclude_paths().take(i as int);
            let ghost cur = spec_builtin_exclude_paths().take(i as int + 1);
            proof {
                assert(cur.drop_last() =~= pre);
                assert(cur.last() == spec_builtin_exclude_paths()[i as int]);
                assert(builtins@[i as int].deep_view() == builtins.deep_view()[i as int]);
            }
            let b: String = builtins[i].to_owned();
            if !contains_string(&self.disable_exclude_paths, &b) {
                let ghost old_dv = r.deep_view();
                r.push(b);
                proof {
                    assert(r.deep_view() =~= old_dv.push(spec_builtin_exclude_paths()[i as int]));
                }
            }
            i = i + 1;
        }
        proof {
            assert(spec_builtin_exclude_paths().take(builtins.len() as int)
                =~= spec_builtin_exclude_paths());
        }
        push_missing(&mut r, &self.extra_exclude_paths);
        r
    }

    /// Resolve paths the scanner should skip: system paths + all resolved
    /// exclude paths.
    pub fn resolved_skip_paths(&self) -> (r: Vec<String>)
        ensures
            r.deep_view() == spec_resolved_skip_paths(
                self.disable_exclude_paths.deep_view(),
                self.extra_exclude_paths.deep_view(),
            ),
    {
        let system = system_skip_paths();
        let mut r: Vec<String> = Vec::new();
        let mut i: usize = 0;
        while i < system.len()
            invariant
                0 <= i <= system.len(),
                system.deep_view() == spec_system_skip_paths(),
                r.deep_view() =~= spec_system_skip_paths().take(i as int),
            decreases system.len() - i,
        {
            let ghost old_dv = r.deep_view();
            r.push(system[i].to_owned());
            proof {
                assert(system@[i as int].deep_view() == system.deep_view()[i as int]);
                assert(r.deep_view() =~= old_dv.push(spec_system_skip_paths()[i as int]));
                assert(r.deep_view() =~= spec_system_skip_paths().take(i as int + 1));
            }
            i = i + 1;
        }
        proof {
            assert(spec_system_skip_paths().take(system.len() as int) =~= spec_system_skip_paths());
        }
        let resolved = self.resolved_exclude_paths();
        push_missing(&mut r, &resolved);
        r
    }
}

/// The text written to a fresh configuration file.
pub open spec fn spec_default_toml() -> Seq<char> {
    (r#"# Directories to scan for dependency patterns (default: home dir)
scan_roots = ["~"]

# tmignore excludes these paths from backups by default:
# version managers (~/.rbenv, ~/.pyenv, ~/.nvm, ~/.asdf, ~/.local/share/mise),
# language toolchain caches (~/.cargo, ~/.rustup, ~/.gradle, ~/.m2, ~/.npm, etc.),
# Homebrew (/opt/homebrew), Nix/Devbox (/nix), Docker, and
# Xcode (DerivedData, DeviceSupport, CoreSimulator).
#
# Run `tmignore run --verbose` to see the full list.

# Add extra paths to exclude from backups (on top of built-ins).
# Supports ~ expansion.
extra_exclude_paths = [
    # Virtual machines
    # "~/Parallels",
    # "~/Virtual Machines.localized",
    # "~/.vagrant.d/boxes",

    # Android
    # "~/Library/Android/sdk",
    # "~/.android/avd",

    # Large media (user preference)
    # "~/Movies",
    # "~/Downloads",
]

# Stop excluding a built-in path (it will be backed up normally).
# disable_exclude_paths = ["~/.cargo"]

# tmignore scans for dependency directories (node_modules, target, vendor, etc.)
# by matching a directory name + a sentinel file in its parent (e.g. package.json).
# 40 patterns are built-in. You can disable any by name or add your own.
#
# disable_patterns = ["bundler"]
#
# [[custom_patterns]]
# name = "my-build"
# directory = "dist"
# sentinel = "turbo.json"
"#)@
}

impl Config {
    pub fn default_toml() -> (r: &'static str)
        ensures
            r@ == spec_default_toml(),
    {
        r#"# Directories to scan for dependency patterns (default: home dir)
scan_roots = ["~"]

# tmignore excludes these paths from backups by default:
# version managers (~/.rbenv, ~/.pyenv, ~/.nvm, ~/.asdf, ~/.local/share/mise),
# language toolchain caches (~/.cargo, ~/.rustup, ~/.gradle, ~/.m2, ~/.npm, etc.),
# Homebrew (/opt/homebrew), Nix/Devbox (/nix), Docker, and
# Xcode (DerivedData, DeviceSupport, CoreSimulator).
#
# Run `tmignore run --verbose` to see the full list.

# Add extra paths to exclude from backups (on top of built-ins).
# Supports ~ expansion.
extra_exclude_paths = [
    # Virtual machines
    # "~/Parallels",
    # "~/Virtual Machines.localized",
    # "~/.vagrant.d/boxes",

    # Android
    # "~/Library/Android/sdk",
    # "~/.android/avd",

    # Large media (user preference)
    # "~/Movies",
    # "~/Downloads",
]

# Stop excluding a built-in path (it will be backed up normally).
# disable_exclude_paths = ["~/.cargo"]

# tmignore scans for dependency directories (node_modules, target, vendor, etc.)
# by matching a directory name + a sentinel file in its parent (e.g. package.json).
# 40 patterns are built-in. You can disable any by name or add your own.
#
# disable_patterns = ["bundler"]
#
# [[custom_patterns]]
# name = "my-build"
# directory = "dist"
# sentinel = "turbo.json"
"#
    }
}

impl Default for Config {
    /// A configuration that scans the home directory with nothing disabled.
    fn default() -> (r: Self)
        ensures
            r.scan_roots.deep_view() =~= seq![("~")@],
            r.extra_exclude_paths@.len() == 0,
            r.disable_exclude_paths@.len() == 0,
            r.disable_patterns@.len() == 0,
            r.custom_patterns@.len() == 0,
    {
        Config {
            scan_roots: default_scan_roots(),
            extra_exclude_paths: Vec::new(),
            disable_exclude_paths: Vec::new(),
            disable_patterns: Vec::new(),
            custom_patterns: Vec::new(),
        }
    }
}

/// Law: every member of the filtered catalog is enabled, every enabled
/// catalog entry is kept, and nothing outside the catalog enters; order and
/// distinctness are preserved.
pub proof fn lemma_keep_paths(paths: Seq<Seq<char>>, disabled: Seq<Seq<char>>)
    ensures
        forall|i: int| 0 <= i < spec_keep_paths(paths, disabled).len()
            ==> !disabled.contains(#[trigger] spec_keep_paths(paths, disabled)[i]),
        forall|p: Seq<char>| spec_keep_paths(paths, disabled).contains(p) ==> paths.contains(p),
        forall|j: int| 0 <= j < paths.len() && !disabled.contains(paths[j])
            ==> spec_keep_paths(paths, disabled).contains(#[trigger] paths[j]),
        paths.no_duplicates() ==> spec_keep_paths(paths, disabled).no_duplicates(),
    decreases paths.len(),
{
    if paths.len() == 0 {
    } else {
        let prior = paths.drop_last();
        let rest = spec_keep_paths(prior, disabled);
        let whole = spec_keep_paths(paths, disabled);
        lemma_keep_paths(prior, disabled);
        assert forall|p: Seq<char>| whole.contains(p) implies paths.contains(p) by {
            let w = choose|w: int| 0 <= w < whole.len() && whole[w] == p;
            if w < rest.len() {
                assert(rest[w] == p);
                assert(rest.contains(p));
                assert(prior.contains(p));
                let v = choose|v: int| 0 <= v < prior.len() && prior[v] == p;
                assert(prior[v] == paths[v]);
                assert(paths.contains(p));
            } else {
                assert(p == paths.last());
            }
        }
        assert forall|j: int| 0 <= j < paths.len() && !disabled.contains(paths[j])
            implies whole.contains(#[trigger] paths[j]) by {
            if j < paths.len() - 1 {
                assert(prior[j] == paths[j]);
                assert(rest.contains(paths[j]));
                let w = choose|w: int| 0 <= w < rest.len() && rest[w] == paths[j];
                assert(whole[w] == paths[j]);
            } else {
                assert(whole[whole.len() - 1] == paths.last());
            }
        }
        if paths.no_duplicates() {
            assert(prior.no_duplicates());
            if !disabled.contains(paths.last()) {
                if rest.contains(paths.last()) {
                    assert(prior.contains(paths.last()));
                    let v = choose|v: int| 0 <= v < prior.len() && prior[v] == paths.last();
                    assert(prior[v] == paths[v]);
                    assert(paths[v] != paths[paths.len() - 1]);
                    assert(false);
                }
                assert(whole.no_duplicates());
            }
        }
    }
}

/// Law: appending the missing extras keeps the accumulator as a prefix, adds
/// exactly the members of `extras`, and never introduces a duplicate.
pub proof fn lemma_append_missing(acc: Seq<Seq<char>>, extras: Seq<Seq<char>>)
    ensures
        acc.is_prefix_of(spec_append_missing(acc, extras)),
        forall|p: Seq<char>| spec_append_missing(acc, extras).contains(p)
            <==> acc.contains(p) || extras.contains(p),
        acc.no_duplicates() ==> spec_append_missing(acc, extras).no_duplicates(),
    decreases extras.len(),
{
    if extras.len() == 0 {
        assert(acc.is_prefix_of(spec_append_missing(acc, extras)));
        assert forall|p: Seq<char>| acc.contains(p) || extras.contains(p)
            implies spec_append_missing(acc, extras).contains(p) by {
            assert(!extras.contains(p)) by {
                if extras.contains(p) {
                    let w = choose|w: int| 0 <= w < extras.len() && extras[w] == p;
                }
            }
        }
    } else {
        let prior = extras.drop_last();
        let part = spec_append_missing(acc, prior);
        let whole = spec_append_missing(acc, extras);
        lemma_append_missing(acc, prior);
        assert(acc.is_prefix_of(part));
        if part.contains(extras.last()) {
            assert(whole == part);
        } else {
            assert(whole == part.push(extras.last()));
            assert(acc.is_prefix_of(whole)) by {
                assert(forall|k: int| 0 <= k < acc.len() ==> whole[k] == acc[k]);
                assert(acc =~= whole.subrange(0, acc.len() as int));
            }
        }
        assert forall|p: Seq<char>| whole.contains(p)
            implies acc.contains(p) || extras.contains(p) by {
            let w = choose|w: int| 0 <= w < whole.len() && whole[w] == p;
            if w < part.len() {
                assert(part.contains(p));
                if prior.contains(p) {
                    let v = choose|v: int| 0 <= v < prior.len() && prior[v] == p;
                    assert(extras[v] == p);
                }
            } else {
                assert(p == extras.last());
            }
        }
        assert forall|p: Seq<char>| acc.contains(p) || extras.contains(p)
            implies whole.contains(p) by {
            if acc.contains(p) || prior.contains(p) {
                assert(part.contains(p));
                let w = choose|w: int| 0 <= w < part.len() && part[w] == p;
                assert(whole[w] == p);
            } else {
                let w = choose|w: int| 0 <= w < extras.len() && extras[w] == p;
                if w < extras.len() - 1 {
                    assert(prior[w] == extras[w]);
                    assert(prior.contains(p));
                }
                assert(p == extras.last());
                assert(whole.contains(extras.last())) by {
                    if !part.contains(extras.last()) {
                        assert(whole[whole.len() - 1] == extras.last());
                    }
                }
            }
        }
        if acc.no_duplicates() {
            assert(part.no_duplicates());
            if !part.contains(extras.last()) {
                assert(forall|v: int| 0 <= v < part.len() ==> part[v] != extras.last());
                assert(whole.no_duplicates());
            }
        }
    }
}

/// Law: the resolved exclude list never contains a disabled built-in (unless
/// the same string is supplied again as an extra), always contains every
/// non-disabled built-in and every extra, and holds no duplicates.
pub proof fn lemma_resolved_exclude_paths(disabled: Seq<Seq<char>>, extras: Seq<Seq<char>>)
    ensures
        forall|p: Seq<char>| disabled.contains(p) && !extras.contains(p)
            ==> !spec_resolved_exclude_paths(disabled, extras).contains(p),
        forall|j: int| 0 <= j < spec_builtin_exclude_paths().len()
            && !disabled.contains(spec_builtin_exclude_paths()[j])
            ==> spec_resolved_exclude_paths(disabled, extras).contains(
                #[trigger] spec_builtin_exclude_paths()[j]),
        forall|j: int| 0 <= j < extras.len()
            ==> spec_resolved_exclude_paths(disabled, extras).contains(#[trigger] extras[j]),
        spec_resolved_exclude_paths(disabled, extras).no_duplicates(),
{
    let keep = spec_keep_paths(spec_builtin_exclude_paths(), disabled);
    lemma_builtin_exclude_paths_distinct();
    lemma_keep_paths(spec_builtin_exclude_paths(), disabled);
    lemma_append_missing(keep, extras);
    assert forall|j: int| 0 <= j < extras.len()
        implies spec_resolved_exclude_paths(disabled, extras).contains(#[trigger] extras[j]) by {
        assert(extras.contains(extras[j]));
    }
}

/// Law: running the resolver twice with identical inputs yields identical
/// ordered output. Together with the contract of `resolved_exclude_paths`,
/// whose result is exactly `spec_resolved_exclude_paths` of its inputs, any
/// two calls on equal configurations return equal sequences.
pub proof fn lemma_resolver_idempotent(
    disabled: Seq<Seq<char>>,
    extras: Seq<Seq<char>>,
    r1: Seq<Seq<char>>,
    r2: Seq<Seq<char>>,
)
    requires
        r1 == spec_resolved_exclude_paths(disabled, extras),
        r2 == spec_resolved_exclude_paths(disabled, extras),
    ensures
        r1 == r2,
{
}

/// Replace a leading `~` or `~/` by the home directory; any other string
/// passes through unchanged.
pub open spec fn spec_expand_tilde(home: Seq<char>, path: Seq<char>) -> Seq<char> {
    if path.len() >= 2 && path[0] == '~' && path[1] == '/' {
        home + path.subrange(1, path.len() as int)
    } else if path.len() == 1 && path[0] == '~' {
        home
    } else {
        path
    }
}

/// Expand the tilde shorthand against an explicitly supplied home directory.
pub fn expand_tilde(home: &str, path: &str) -> (r: String)
    ensures
        r@ == spec_expand_tilde(home@, path@),
{
    let n: usize = path.unicode_len();
    if n >= 2 && path.get_char(0) == '~' && path.get_char(1) == '/' {
        let rest = crate::text::str_suffix(path, 1);
        home.to_owned().concat(rest.as_str())
    } else if n == 1 && path.get_char(0) == '~' {
        home.to_owned()
    } else {
        path.to_owned()
    }
}

/// Rewrite a path under the home directory back to its `~` shorthand; any
/// other path passes through unchanged.
pub open spec fn spec_contract_tilde(home: Seq<char>, path: Seq<char>) -> Seq<char> {
    if path == home {
        seq!['~']
    } else if home.is_prefix_of(path) && path.len() > home.len() && path[home.len() as int] == '/' {
        seq!['~'] + path.subrange(home.len() as int, path.len() as int)
    } else {
        path
    }
}

/// Contract a path to the tilde shorthand against an explicitly supplied
/// home directory.
pub fn contract_tilde(home: &str, path: &str) -> (r: String)
    ensures
        r@ == spec_contract_tilde(home@, path@),
{
    proof {
        reveal_strlit("~");
    }
    let n: usize = path.unicode_len();
    let m: usize = home.unicode_len();
    if crate::text::str_starts_with(path, home) {
        if n == m {
            proof {
                assert(path@ =~= home@);
            }
            return "~".to_owned();
        }
        if path.get_char(m) == '/' {
            let rest = crate::text::str_suffix(path, m);
            proof {
                assert(path@ != home@) by {
                    assert(path@.len() != home@.len());
                }
            }
            return "~".to_owned().concat(rest.as_str());
        }
        proof {
            assert(path@ != home@) by {
                assert(path@.len() != home@.len());
            }
        }
        path.to_owned()
    } else {
        proof {
            assert(path@ != home@) by {
                if path@ == home@ {
                    assert(home@.is_prefix_of(path@)) by {
                        assert(home@ =~= path@.subrange(0, home@.len() as int));
                    }
                }
            }
        }
        path.to_owned()
    }
}

/// Where the configuration file lives, relative to the home directory.
pub fn config_path(home: &str) -> (r: String)
    ensures
        r@ == home@ + ("/.config/tmignore/config.toml")@,
{
    home.to_owned().concat("/.config/tmignore/config.toml")
}

/// The built-in exclude catalog lists each path once.
#[verifier::rlimit(100)]
pub proof fn lemma_builtin_exclude_paths_distinct()
    ensures
        spec_builtin_exclude_paths().no_duplicates(),
{
    reveal_strlit("~/.rbenv");
    reveal_strlit("~/.pyenv");
    reveal_strlit("~/.nvm");
    reveal_strlit("~/.asdf");
    reveal_strlit("~/.local/share/mise");
    reveal_strlit("~/.rustup");
    reveal_strlit("~/.cargo");
    reveal_strlit("~/.gradle");
    reveal_strlit("~/.m2");
    reveal_strlit("~/.npm");
    reveal_strlit("~/.pnpm-store");
    reveal_strlit("~/.cocoapods");
    reveal_strlit("~/.nuget");
    reveal_strlit("~/go/pkg");
    reveal_strlit("~/.gem");
    reveal_strlit("~/.hex");
    reveal_strlit("~/.cpan");
    reveal_strlit("~/.bun");
    reveal_strlit("~/.deno");
    reveal_strlit("~/.yarn");
    reveal_strlit("~/.npm-global");
    reveal_strlit("~/.cache/node");
    reveal_strlit("/opt/homebrew");
    reveal_strlit("/nix");
    reveal_strlit("~/.cache/nix");
    reveal_strlit("~/.local/share/devbox");
    reveal_strlit("~/Library/Containers/com.docker.docker");
    reveal_strlit("~/.colima");
    reveal_strlit("~/.lima");
    reveal_strlit("~/Library/Developer/Xcode/DerivedData");
    reveal_strlit("~/Library/Developer/Xcode/iOS DeviceSupport");
    reveal_strlit("~/Library/Developer/Xcode/watchOS DeviceSupport");
    reveal_strlit("~/Library/Developer/Xcode/tvOS DeviceSupport");
    reveal_strlit("~/Library/Developer/CoreSimulator/Devices");
    assert(("~/.rbenv")@.len() == 8);
    assert(("~/.pyenv")@.len() == 8);
    assert(("~/.nvm")@.len() == 6);
    assert(("~/.asdf")@.len() == 7);
    assert(("~/.local/share/mise")@.len() == 19);
    assert(("~/.rustup")@.len() == 9);
    assert(("~/.cargo")@.len() == 8);
    assert(("~/.gradle")@.len() == 9);
    assert(("~/.m2")@.len() == 5);
    assert(("~/.npm")@.len() == 6);
    assert(("~/.pnpm-store")@.len() == 13);
    assert(("~/.cocoapods")@.len() == 12);
    assert(("~/.nuget")@.len() == 8);
    assert(("~/go/pkg")@.len() == 8);
    assert(("~/.gem")@.len() == 6);
    assert(("~/.hex")@.len() == 6);
    assert(("~/.cpan")@.len() == 7);
    assert(("~/.bun")@.len() == 6);
    assert(("~/.deno")@.len() == 7);
    assert(("~/.yarn")@.len() == 7);
    assert(("~/.npm-global")@.len() == 13);
    assert(("~/.cache/node")@.len() == 13);
    assert(("/opt/homebrew")@.len() == 13);
    assert(("/nix")@.len() == 4);
    assert(("~/.cache/nix")@.len() == 12);
    assert(("~/.local/share/devbox")@.len() == 21);
    assert(("~/Library/Containers/com.docker.docker")@.len() == 38);
    assert(("~/.colima")@.len() == 9);
    assert(("~/.lima")@.len() == 7);
    assert(("~/Library/Developer/Xcode/DerivedData")@.len() == 37);
    assert(("~/Library/Developer/Xcode/iOS DeviceSupport")@.len() == 43);
    assert(("~/Library/Developer/Xcode/watchOS DeviceSupport")@.len() == 47);
    assert(("~/Library/Developer/Xcode/tvOS DeviceSupport")@.len() == 44);
    assert(("~/Library/Developer/CoreSimulator/Devices")@.len() == 41);
    assert(("~/.rbenv")@[3] == 'r');
    assert(("~/.pyenv")@[3] == 'p');
    assert(("~/.cargo")@[3] == 'c');
    assert(("~/.nuget")@[3] == 'n');
    assert(("~/.rbenv")@[2] == '.');
    assert(("~/go/pkg")@[2] == 'g');
    assert(("~/.pyenv")@[2] == '.');
    assert(("~/.nvm")@[4] == 'v');
    assert(("~/.npm")@[4] == 'p');
    assert(("~/.nvm")@[3] == 'n');
    assert(("~/.gem")@[3] == 'g');
    assert(("~/.hex")@[3] == 'h');
    assert(("~/.bun")@[3] == 'b');
    assert(("~/.asdf")@[3] == 'a');
    assert(("~/.cpan")@[3] == 'c');
    assert(("~/.deno")@[3] == 'd');
    assert(("~/.yarn")@[3] == 'y');
    assert(("~/.lima")@[3] == 'l');
    assert(("~/.rustup")@[3] == 'r');
    assert(("~/.gradle")@[3] == 'g');
    assert(("~/.colima")@[3] == 'c');
    assert(("~/.cargo")@[2] == '.');
    assert(("~/.npm")@[3] == 'n');
    assert(("~/.pnpm-store")@[3] == 'p');
    assert(("~/.npm-global")@[3] == 'n');
    assert(("~/.cache/node")@[3] == 'c');
    assert(("~/.pnpm-store")@[0] == '~');
    assert(("/opt/homebrew")@[0] == '/');
    assert(("~/.cocoapods")@[4] == 'o');
    assert(("~/.cache/nix")@[4] == 'a');
    assert(("~/.nuget")@[2] == '.');
    assert(("~/.npm-global")@[0] == '~');
    assert(("~/.cache/node")@[0] == '~');
    assert(("~/.rbenv")@ != ("~/.pyenv")@);
    assert(("~/.rbenv")@ != ("~/.cargo")@);
    assert(("~/.rbenv")@ != ("~/.nuget")@);
    assert(("~/.rbenv")@ != ("~/go/pkg")@);
    assert(("~/.pyenv")@ != ("~/.cargo")@);
    assert(("~/.pyenv")@ != ("~/.nuget")@);
    assert(("~/.pyenv")@ != ("~/go/pkg")@);
    assert(("~/.nvm")@ != ("~/.npm")@);
    assert(("~/.nvm")@ != ("~/.gem")@);
    assert(("~/.nvm")@ != ("~/.hex")@);
    assert(("~/.nvm")@ != ("~/.bun")@);
    assert(("~/.asdf")@ != ("~/.cpan")@);
    assert(("~/.asdf")@ != ("~/.deno")@);
    assert(("~/.asdf")@ != ("~/.yarn")@);
    assert(("~/.asdf")@ != ("~/.lima")@);
    assert(("~/.rustup")@ != ("~/.gradle")@);
    assert(("~/.rustup")@ != ("~/.colima")@);
    assert(("~/.cargo")@ != ("~/.nuget")@);
    assert(("~/.cargo")@ != ("~/go/pkg")@);
    assert(("~/.gradle")@ != ("~/.colima")@);
    assert(("~/.npm")@ != ("~/.gem")@);
    assert(("~/.npm")@ != ("~/.hex")@);
    assert(("~/.npm")@ != ("~/.bun")@);
    assert(("~/.pnpm-store")@ != ("~/.npm-global")@);
    assert(("~/.pnpm-store")@ != ("~/.cache/node")@);
    assert(("~/.pnpm-store")@ != ("/opt/homebrew")@);
    assert(("~/.cocoapods")@ != ("~/.cache/nix")@);
    assert(("~/.nuget")@ != ("~/go/pkg")@);
    assert(("~/.gem")@ != ("~/.hex")@);
    assert(("~/.gem")@ != ("~/.bun")@);
    assert(("~/.hex")@ != ("~/.bun")@);
    assert(("~/.cpan")@ != ("~/.deno")@);
    assert(("~/.cpan")@ != ("~/.yarn")@);
    assert(("~/.cpan")@ != ("~/.lima")@);
    assert(("~/.deno")@ != ("~/.yarn")@);
    assert(("~/.deno")@ != ("~/.lima")@);
    assert(("~/.yarn")@ != ("~/.lima")@);
    assert(("~/.npm-global")@ != ("~/.cache/node")@);
    assert(("~/.npm-global")@ != ("/opt/homebrew")@);
    assert(("~/.cache/node")@ != ("/opt/homebrew")@);
    assert(spec_builtin_exclude_paths().no_duplicates());
}

} // verus!

