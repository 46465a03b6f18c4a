//! The pattern registry: the catalog of recognized ecosystem signatures and
//! the policy that resolves the active set from user disables and additions.

use vstd::prelude::*;
use crate::config::CustomPattern;

verus! {

/// Mathematical image of a pattern: each field as its character sequence.
pub ghost struct PatternModel {
    pub name: Seq<char>,
    pub directory: Seq<char>,
    pub sentinel: Seq<char>,
}

pub open spec fn pattern_model(name: Seq<char>, directory: Seq<char>, sentinel: Seq<char>) -> PatternModel {
    PatternModel { name, directory, sentinel }
}

/// An ecosystem signature: a directory basename to recognise, confirmed by a
/// sentinel file (exact name or glob) in the directory's parent.
#[derive(Debug)]
pub struct Pattern {
    pub name: String,
    pub directory: String,
    pub sentinel: String,
}

impl View for Pattern {
    type V = PatternModel;

    open spec fn view(&self) -> PatternModel {
        PatternModel { name: self.name@, directory: self.directory@, sentinel: self.sentinel@ }
    }
}

impl DeepView for Pattern {
    type V = PatternModel;

    open spec fn deep_view(&self) -> PatternModel {
        self@
    }
}

impl Clone for Pattern {
    fn clone(&self) -> (r: Self)
        ensures
            r@ == self@,
    {
        Pattern {
            name: self.name.clone(),
            directory: self.directory.clone(),
            sentinel: self.sentinel.clone(),
        }
    }
}

impl Pattern {
    pub fn new(name: &str, directory: &str, sentinel: &str) -> (r: Self)
        ensures
            r@ == pattern_model(name@, directory@, sentinel@),
    {
        Pattern {
            name: name.to_owned(),
            directory: directory.to_owned(),
            sentinel: sentinel.to_owned(),
        }
    }

    /// A user-defined pattern participates in matching exactly like a built-in.
    pub fn from_custom(cp: &CustomPattern) -> (r: Self)
        ensures
            r@ == cp.deep_view(),
    {
        Pattern::from(cp)
    }
}

impl<'a> From<&'a CustomPattern> for Pattern {
    fn from(cp: &'a CustomPattern) -> (r: Self) {
        Pattern {
            name: cp.name.clone(),
            directory: cp.directory.clone(),
            sentinel: cp.sentinel.clone(),
        }
    }
}

impl<'a> vstd::std_specs::convert::FromSpecImpl<&'a CustomPattern> for Pattern {
    open spec fn obeys_from_spec() -> bool {
        true
    }

    open spec fn from_spec(cp: &'a CustomPattern) -> Pattern {
        Pattern { name: cp.name, directory: cp.directory, sentinel: cp.sentinel }
    }
}

/// The fixed catalog of built-in ecosystem signatures, in registry order.
pub open spec fn spec_builtin_patterns() -> Seq<PatternModel> {
    seq![
        pattern_model("node"@, "node_modules"@, "package.json"@),
        pattern_model("next"@, ".next"@, "package.json"@),
        pattern_model("nuxt"@, ".nuxt"@, "package.json"@),
        pattern_model("svelte-kit"@, ".svelte-kit"@, "package.json"@),
        pattern_model("angular"@, ".angular"@, "package.json"@),
        pattern_model("parcel"@, ".parcel-cache"@, "package.json"@),
        pattern_model("turbo"@, ".turbo"@, "package.json"@),
        pattern_model("bower"@, "bower_components"@, "bower.json"@),
        pattern_model("yarn"@, ".yarn"@, ".yarnrc.yml"@),
        pattern_model("composer"@, "vendor"@, "composer.json"@),
        pattern_model("bundler"@, "vendor"@, "Gemfile"@),
        pattern_model("cargo"@, "target"@, "Cargo.toml"@),
        pattern_model("go"@, "vendor"@, "go.mod"@),
        pattern_model("maven"@, "target"@, "pom.xml"@),
        pattern_model("gradle"@, ".gradle"@, "build.gradle"@),
        pattern_model("gradle-kts"@, ".gradle"@, "build.gradle.kts"@),
        pattern_model("sbt"@, "target"@, "build.sbt"@),
        pattern_model("swift"@, ".build"@, "Package.swift"@),
        pattern_model("cocoapods"@, "Pods"@, "Podfile"@),
        pattern_model("carthage"@, "Carthage"@, "Cartfile"@),
        pattern_model("flutter"@, ".dart_tool"@, "pubspec.yaml"@),
        pattern_model("pub"@, ".packages"@, "pubspec.yaml"@),
        pattern_model("python-venv"@, ".venv"@, "pyproject.toml"@),
        pattern_model("python-tox"@, ".tox"@, "tox.ini"@),
        pattern_model("python-nox"@, ".nox"@, "noxfile.py"@),
        pattern_model("elixir-deps"@, "deps"@, "mix.exs"@),
        pattern_model("elixir-build"@, "_build"@, "mix.exs"@),
        pattern_model("haskell"@, ".stack-work"@, "stack.yaml"@),
        pattern_model("vagrant"@, ".vagrant"@, "Vagrantfile"@),
        pattern_model("terraform"@, ".terraform"@, ".terraform.lock.hcl"@),
        pattern_model("terragrunt"@, ".terragrunt-cache"@, "terragrunt.hcl"@),
        pattern_model("cdk"@, "cdk.out"@, "cdk.json"@),
        pattern_model("dotnet-bin"@, "bin"@, "*.csproj"@),
        pattern_model("dotnet-obj"@, "obj"@, "*.csproj"@),
        pattern_model("zig"@, "zig-cache"@, "build.zig"@),
        pattern_model("ocaml"@, "_build"@, "dune-project"@),
        pattern_model("godot"@, ".godot"@, "project.godot"@),
        pattern_model("clojure"@, ".cpcache"@, "deps.edn"@),
        pattern_model("renv"@, "renv"@, "renv.lock"@),
        pattern_model("devbox"@, ".devbox"@, "devbox.json"@),
    ]
}

/// The built-in catalog as executable data, in registry order.
#[verifier::rlimit(40)]
pub fn builtin_patterns() -> (r: Vec<Pattern>)
    ensures
        r.deep_view() == spec_builtin_patterns(),
{
    let mut v: Vec<Pattern> = Vec::new();
    v.push(Pattern::new("node", "node_modules", "package.json"));
    v.push(Pattern::new("next", ".next", "package.json"));
    v.push(Pattern::new("nuxt", ".nuxt", "package.json"));
    v.push(Pattern::new("svelte-kit", ".svelte-kit", "package.json"));
    v.push(Pattern::new("angular", ".angular", "package.json"));
    v.push(Pattern::new("parcel", ".parcel-cache", "package.json"));
    v.push(Pattern::new("turbo", ".turbo", "package.json"));
    v.push(Pattern::new("bower", "bower_components", "bower.json"));
    v.push(Pattern::new("yarn", ".yarn", ".yarnrc.yml"));
    v.push(Pattern::new("composer", "vendor", "composer.json"));
    v.push(Pattern::new("bundler", "vendor", "Gemfile"));
    v.push(Pattern::new("cargo", "target", "Cargo.toml"));
    v.push(Pattern::new("go", "vendor", "go.mod"));
    v.push(Pattern::new("maven", "target", "pom.xml"));
    v.push(Pattern::new("gradle", ".gradle", "build.gradle"));
    v.push(Pattern::new("gradle-kts", ".gradle", "build.gradle.kts"));
    v.push(Pattern::new("sbt", "target", "build.sbt"));
    v.push(Pattern::new("swift", ".build", "Package.swift"));
    v.push(Pattern::new("cocoapods", "Pods", "Podfile"));
    v.push(Pattern::new("carthage", "Carthage", "Cartfile"));
    v.push(Pattern::new("flutter", ".dart_tool", "pubspec.yaml"));
    v.push(Pattern::new("pub", ".packages", "pubspec.yaml"));
    v.push(Pattern::new("python-venv", ".venv", "pyproject.toml"));
    v.push(Pattern::new("python-tox", ".tox", "tox.ini"));
    v.push(Pattern::new("python-nox", ".nox", "noxfile.py"));
    v.push(Pattern::new("elixir-deps", "deps", "mix.exs"));
    v.push(Pattern::new("elixir-build", "_build", "mix.exs"));
    v.push(Pattern::new("haskell", ".stack-work", "stack.yaml"));
    v.push(Pattern::new("vagrant", ".vagrant", "Vagrantfile"));
    v.push(Pattern::new("terraform", ".terraform", ".terraform.lock.hcl"));
    v.push(Pattern::new("terragrunt", ".terragrunt-cache", "terragrunt.hcl"));
    v.push(Pattern::new("cdk", "cdk.out", "cdk.json"));
    v.push(Pattern::new("dotnet-bin", "bin", "*.csproj"));
    v.push(Pattern::new("dotnet-obj", "obj", "*.csproj"));
    v.push(Pattern::new("zig", "zig-cache", "build.zig"));
    v.push(Pattern::new("ocaml", "_build", "dune-project"));
    v.push(Pattern::new("godot", ".godot", "project.godot"));
    v.push(Pattern::new("clojure", ".cpcache", "deps.edn"));
    v.push(Pattern::new("renv", "renv", "renv.lock"));
    v.push(Pattern::new("devbox", ".devbox", "devbox.json"));
    assert(v.deep_view() =~~= spec_builtin_patterns());
    v
}

/// The members of `patterns` whose name is not in `disable`, in order.
pub open spec fn spec_keep_enabled(patterns: Seq<PatternModel>, disable: Seq<Seq<char>>) -> Seq<PatternModel>
    decreases patterns.len(),
{
    if patterns.len() == 0 {
        Seq::empty()
    } else {
        let rest = spec_keep_enabled(patterns.drop_last(), disable);
        if disable.contains(patterns.last().name) {
            rest
        } else {
            rest.push(patterns.last())
        }
    }
}

/// The active pattern set: built-ins whose name is not disabled, then every
/// user-defined pattern, appended in configured order with no uniqueness check.
pub open spec fn spec_resolve_patterns(disable: Seq<Seq<char>>, custom: Seq<PatternModel>) -> Seq<PatternModel> {
    spec_keep_enabled(spec_builtin_patterns(), disable) + custom
}

/// Resolve active patterns: built-ins minus disabled, plus custom patterns.
/// Disabling an unknown name is a silent no-op.
pub fn resolve_patterns(disable: &Vec<String>, custom: &Vec<CustomPattern>) -> (r: Vec<Pattern>)
    ensures
        r.deep_view() == spec_resolve_patterns(disable.deep_view(), custom.deep_view()),
{
    let builtins = builtin_patterns();
    let mut r: Vec<Pattern> = Vec::new();
    let mut i: usize = 0;
    while i < builtins.len()
        invariant
            0 <= i <= builtins.len(),
            builtins.deep_view() == spec_builtin_patterns(),
            r.deep_view() == spec_keep_enabled(spec_builtin_patterns().take(i as int), disable.deep_view()),
        decreases builtins.len() - i,
    {
        let ghost pre = spec_builtin_patterns().take(i as int);
        let ghost cur = spec_builtin_patterns().take(i as int + 1);
        proof {
            assert(cur.drop_last() =~= pre);
            assert(cur.last() == spec_builtin_patterns()[i as int]);
            assert(builtins@[i as int].deep_view() == builtins.deep_view()[i as int]);
        }
        if !crate::text::contains_string(disable, &builtins[i].name) {
            let ghost old_dv = r.deep_view();
            r.push(builtins[i].clone());
            proof {
                assert(r.deep_view() =~= old_dv.push(builtins@[i as int]@));
            }
        }
        i = i + 1;
    }
    proof {
        assert(spec_builtin_patterns().take(builtins.len() as int) =~= spec_builtin_patterns());
    }
    let mut j: usize = 0;
    while j < custom.len()
        invariant
            0 <= j <= custom.len(),
            r.deep_view() == spec_keep_enabled(spec_builtin_patterns(), disable.deep_view())
                + custom.deep_view().take(j as int),
        decreases custom.len() - j,
    {
        proof {
            assert(custom@[j as int].deep_view() == custom.deep_view()[j as int]);
        }
        let ghost old_dv = r.deep_view();
        r.push(Pattern::from_custom(&custom[j]));
        proof {
            assert(r.deep_view() =~= old_dv.push(custom.deep_view()[j as int]));
            assert(r.deep_view() =~= spec_keep_enabled(spec_builtin_patterns(), disable.deep_view())
                + custom.deep_view().take(j as int + 1));
        }
        j = j + 1;
    }
    proof {
        assert(custom.deep_view().take(custom.len() as int) =~= custom.deep_view());
    }
    r
}

/// Law: with no custom patterns, the active set contains no pattern whose
/// name is disabled, and contains every built-in whose name is not disabled.
pub proof fn lemma_resolve_patterns_disable(disable: Seq<Seq<char>>)
    ensures
        forall|i: int| 0 <= i < spec_resolve_patterns(disable, Seq::empty()).len()
            ==> !disable.contains(#[trigger] spec_resolve_patterns(disable, Seq::empty())[i].name),
        forall|j: int| 0 <= j < spec_builtin_patterns().len()
            && !disable.contains(spec_builtin_patterns()[j].name)
            ==> spec_resolve_patterns(disable, Seq::empty()).contains(#[trigger] spec_builtin_patterns()[j]),
{
    lemma_keep_enabled(spec_builtin_patterns(), disable);
    assert(spec_resolve_patterns(disable, Seq::empty())
        =~= spec_keep_enabled(spec_builtin_patterns(), disable));
}

/// Every member of the filtered catalog has an enabled name, and every
/// catalog entry with an enabled name is kept.
pub proof fn lemma_keep_enabled(patterns: Seq<PatternModel>, disable: Seq<Seq<char>>)
    ensures
        forall|i: int| 0 <= i < spec_keep_enabled(patterns, disable).len()
            ==> !disable.contains(#[trigger] spec_keep_enabled(patterns, disable)[i].name),
        forall|j: int| 0 <= j < patterns.len() && !disable.contains(patterns[j].name)
            ==> spec_keep_enabled(patterns, disable).contains(#[trigger] patterns[j]),
    decreases patterns.len(),
{
    if patterns.len() == 0 {
    } else {
        let rest = spec_keep_enabled(patterns.drop_last(), disable);
        let whole = spec_keep_enabled(patterns, disable);
        lemma_keep_enabled(patterns.drop_last(), disable);
        assert forall|j: int| 0 <= j < patterns.len() && !disable.contains(patterns[j].name)
            implies whole.contains(#[trigger] patterns[j]) by {
            if j < patterns.len() - 1 {
                assert(patterns.drop_last()[j] == patterns[j]);
                assert(rest.contains(patterns[j]));
                let w = choose|w: int| 0 <= w < rest.len() && rest[w] == patterns[j];
                assert(whole[w] == patterns[j]);
            } else {
                assert(patterns[j] == patterns.last());
                assert(whole[whole.len() - 1] == patterns.last());
            }
        }
    }
}

} // verus!
