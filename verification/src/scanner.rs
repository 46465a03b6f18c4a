//! The tree walker and matcher: walks snapshots of directory trees, consults
//! the skip set and a directory-name index built from the pattern registry,
//! confirms matches by sentinel files in the parent, and prunes a subtree as
//! soon as it is classified.
//!
//! The walker works on [`FsDir`] values: in-memory snapshots of a directory
//! tree holding only what the heuristic reads (directory basenames and the
//! names of the entries of each directory). Listing a real tree into such a
//! snapshot, skipping symbolic links and unreadable entries, is I/O and lives
//! outside the library.

use vstd::prelude::*;
use crate::config::Config;
use crate::config::expand_tilde;
use crate::config::spec_expand_tilde;
use crate::config::spec_resolved_exclude_paths;
use crate::config::spec_resolved_skip_paths;
use crate::patterns::{Pattern, PatternModel};
use crate::text::contains_string;

verus! {

/// A snapshot of one directory: its basename, the names of the plain entries
/// (files and symbolic links) in it, and its subdirectories.
pub struct FsDir {
    pub name: String,
    pub files: Vec<String>,
    pub subdirs: Vec<FsDir>,
}

/// Mathematical image of a directory snapshot.
pub ghost struct FsDirModel {
    pub name: Seq<char>,
    pub files: Seq<Seq<char>>,
    pub subdirs: Seq<FsDirModel>,
}

/// The images of a list of snapshots, in order.
pub open spec fn dirs_model(ds: Seq<FsDir>) -> Seq<FsDirModel>
    decreases ds,
{
    if ds.len() == 0 {
        Seq::empty()
    } else {
        dirs_model(ds.drop_last()).push(dir_model(ds.last()))
    }
}

/// The image of a snapshot, computed recursively.
pub open spec fn dir_model(d: FsDir) -> FsDirModel
    decreases d,
    via dir_model_decreases
{
    FsDirModel {
        name: d.name@,
        files: d.files.deep_view(),
        subdirs: dirs_model(d.subdirs@),
    }
}

#[via_fn]
proof fn dir_model_decreases(d: FsDir) {
    broadcast use vstd::std_specs::vec::group_vec_axioms;

    assert(decreases_to!(d => d.subdirs));
    assert(decreases_to!(d.subdirs => d.subdirs@));
}

/// Taking images commutes with indexing.
pub proof fn lemma_dirs_model_index(ds: Seq<FsDir>)
    ensures
        dirs_model(ds).len() == ds.len(),
        forall|i: int| 0 <= i < ds.len() ==> #[trigger] dirs_model(ds)[i] == dir_model(ds[i]),
    decreases ds,
{
    if ds.len() == 0 {
    } else {
        lemma_dirs_model_index(ds.drop_last());
        assert forall|i: int| 0 <= i < ds.len()
            implies #[trigger] dirs_model(ds)[i] == dir_model(ds[i]) by {
            if i < ds.len() - 1 {
                assert(dirs_model(ds)[i] == dirs_model(ds.drop_last())[i]);
                assert(ds.drop_last()[i] == ds[i]);
            }
        }
    }
}

/// The entry names a directory shows to a sentinel check performed by its
/// children: its plain entries and its subdirectory names.
pub open spec fn spec_entries_of(dir: FsDirModel) -> Seq<Seq<char>> {
    dir.files + dir.subdirs.map_values(|c: FsDirModel| c.name)
}

/// One scan result: a path to exclude and the name of the pattern that
/// matched it (or the fixed tag of the exclude-path pass).
#[derive(Debug)]
pub struct ScanMatch {
    pub path: String,
    pub pattern_name: String,
}

/// Mathematical image of a scan result.
pub ghost struct MatchModel {
    pub path: Seq<char>,
    pub pattern_name: Seq<char>,
}

impl View for ScanMatch {
    type V = MatchModel;

    open spec fn view(&self) -> MatchModel {
        MatchModel { path: self.path@, pattern_name: self.pattern_name@ }
    }
}

impl DeepView for ScanMatch {
    type V = MatchModel;

    open spec fn deep_view(&self) -> MatchModel {
        self@
    }
}

/// Does the sentinel hold a shell-glob metacharacter?
pub open spec fn spec_has_glob_char(s: Seq<char>) -> bool {
    exists|i: int| 0 <= i < s.len() && (s[i] == '*' || s[i] == '?' || s[i] == '[')
}

fn has_glob_char(s: &str) -> (r: bool)
    ensures
        r == spec_has_glob_char(s@),
{
    let n: usize = s.unicode_len();
    let mut i: usize = 0;
    while i < n
        invariant
            0 <= i <= n,
            n == s@.len(),
            forall|j: int| 0 <= j < i ==> !(s@[j] == '*' || s@[j] == '?' || s@[j] == '['),
        decreases n - i,
    {
        let c = s.get_char(i);
        if c == '*' || c == '?' || c == '[' {
            return true;
        }
        i = i + 1;
    }
    false
}

/// Whether `name` matches the shell-style glob `pattern`. The result is a
/// function of the two strings alone.
pub uninterp spec fn glob_match(pattern: Seq<char>, name: Seq<char>) -> bool;

/// Relies on glob::Pattern::new and glob::Pattern::matches: compiles a Unix
/// shell style pattern and tests one name against it; an invalid pattern
/// matches nothing.
#[verifier::external_body]
fn glob_name_match(pattern: &str, name: &str) -> (r: bool)
    ensures
        r == glob_match(pattern@, name@),
{
    match glob::Pattern::new(pattern) {
        Ok(p) => p.matches(name),
        Err(_) => false,
    }
}

/// Does one entry name satisfy the sentinel: by glob match when the sentinel
/// holds a metacharacter, by exact equality otherwise?
pub open spec fn spec_sentinel_matches_entry(sentinel: Seq<char>, entry: Seq<char>) -> bool {
    if spec_has_glob_char(sentinel) {
        glob_match(sentinel, entry)
    } else {
        sentinel == entry
    }
}

/// Is the sentinel satisfied by some entry of the parent directory?
pub open spec fn spec_sentinel_present(sentinel: Seq<char>, entries: Seq<Seq<char>>) -> bool {
    exists|i: int| 0 <= i < entries.len() && spec_sentinel_matches_entry(sentinel, entries[i])
}

/// Check if a sentinel file is among the given parent-directory entries.
/// Supports glob patterns (e.g., "*.csproj").
pub fn sentinel_exists(entries: &Vec<String>, sentinel: &str) -> (r: bool)
    ensures
        r == spec_sentinel_present(sentinel@, entries.deep_view()),
{
    let is_glob = has_glob_char(sentinel);
    let owned: String = sentinel.to_owned();
    let mut i: usize = 0;
    while i < entries.len()
        invariant
            0 <= i <= entries.len(),
            is_glob == spec_has_glob_char(sentinel@),
            owned@ == sentinel@,
            forall|j: int| 0 <= j < i
                ==> !spec_sentinel_matches_entry(sentinel@, #[trigger] entries.deep_view()[j]),
        decreases entries.len() - i,
    {
        proof {
            assert(entries.deep_view()[i as int] == entries@[i as int]@);
        }
        let hit = if is_glob {
            glob_name_match(sentinel, entries[i].as_str())
        } else {
            entries[i].eq(&owned)
        };
        if hit {
            assert(spec_sentinel_matches_entry(sentinel@, entries.deep_view()[i as int]));
            return true;
        }
        i = i + 1;
    }
    false
}

/// The indices of the patterns whose directory is `d`, in registry order.
pub open spec fn spec_indices_for(patterns: Seq<PatternModel>, d: Seq<char>) -> Seq<int>
    decreases patterns.len(),
{
    if patterns.len() == 0 {
        Seq::empty()
    } else {
        let pre = spec_indices_for(patterns.drop_last(), d);
        if patterns.last().directory == d {
            pre.push(patterns.len() - 1)
        } else {
            pre
        }
    }
}

/// One row of the directory-name index: a directory basename and the
/// positions of every pattern that watches it.
pub struct IndexEntry {
    pub directory: String,
    pub indices: Vec<usize>,
}

/// A lookup from directory basename to the patterns sharing that basename,
/// built once per scan and reused across the whole traversal.
pub struct DirectoryIndex {
    pub entries: Vec<IndexEntry>,
}

pub open spec fn spec_indices_as_ints(v: Seq<usize>) -> Seq<int> {
    v.map_values(|u: usize| u as int)
}

/// Some row of the index is keyed by the basename `d`.
pub open spec fn index_has_key(index: DirectoryIndex, d: Seq<char>) -> bool {
    exists|i: int| 0 <= i < index.entries@.len() && (#[trigger] index.entries@[i].directory@) == d
}

/// The index is faithful to the pattern list: keys are unique, each row
/// carries exactly the indices of the patterns watching its basename, and
/// every pattern's directory has a row.
pub open spec fn index_wf(index: DirectoryIndex, patterns: Seq<PatternModel>) -> bool {
    &&& forall|i: int, j: int| 0 <= i < j < index.entries@.len()
        ==> index.entries@[i].directory@ != index.entries@[j].directory@
    &&& forall|i: int| 0 <= i < index.entries@.len()
        ==> spec_indices_as_ints((#[trigger] index.entries@[i]).indices@)
            == spec_indices_for(patterns, index.entries@[i].directory@)
    &&& forall|k: int| 0 <= k < patterns.len()
        ==> index_has_key(index, (#[trigger] patterns[k]).directory)
}

/// Build a lookup of directory name -> patterns for fast matching.
pub fn build_directory_index(patterns: &Vec<Pattern>) -> (r: DirectoryIndex)
    ensures
        index_wf(r, patterns.deep_view()),
{
    let ghost pdv = patterns.deep_view();
    let mut keys: Vec<String> = Vec::new();
    let mut i: usize = 0;
    while i < patterns.len()
        invariant
            0 <= i <= patterns.len(),
            pdv == patterns.deep_view(),
            forall|a: int, b: int| 0 <= a < b < keys@.len() ==> keys@[a]@ != keys@[b]@,
            forall|k: int| 0 <= k < i ==> keys.deep_view().contains(#[trigger] pdv[k].directory),
        decreases patterns.len() - i,
    {
        proof {
            assert(pdv[i as int] == patterns@[i as int]@);
        }
        if !contains_string(&keys, &patterns[i].directory) {
            let ghost old_keys = keys.deep_view();
            keys.push(patterns[i].directory.clone());
            proof {
                assert(keys.deep_view() =~= old_keys.push(pdv[i as int].directory));
                assert(keys.deep_view()[keys@.len() - 1] == pdv[i as int].directory);
                assert forall|a: int, b: int| 0 <= a < b < keys@.len()
                    implies keys@[a]@ != keys@[b]@ by {
                    assert(keys.deep_view()[a] == keys@[a]@);
                    assert(keys.deep_view()[b] == keys@[b]@);
                    if b == keys@.len() - 1 {
                        assert(old_keys[a] == keys@[a]@);
                        assert(!old_keys.contains(pdv[i as int].directory));
                    }
                }
                assert forall|k: int| 0 <= k < i + 1
                    implies keys.deep_view().contains(#[trigger] pdv[k].directory) by {
                    if k < i {
                        let w = choose|w: int| 0 <= w < old_keys.len() && old_keys[w] == pdv[k].directory;
                        assert(keys.deep_view()[w] == pdv[k].directory);
                    } else {
                        assert(keys.deep_view().contains(pdv[i as int].directory));
                    }
                }
            }
        } else {
            proof {
                assert(keys.deep_view().contains(pdv[i as int].directory));
            }
        }
        i = i + 1;
    }
    let mut entries: Vec<IndexEntry> = Vec::new();
    let mut j: usize = 0;
    while j < keys.len()
        invariant
            0 <= j <= keys.len(),
            pdv == patterns.deep_view(),
            entries@.len() == j,
            forall|a: int, b: int| 0 <= a < b < keys@.len() ==> keys@[a]@ != keys@[b]@,
            forall|k: int| 0 <= k < pdv.len() ==> keys.deep_view().contains(#[trigger] pdv[k].directory),
            forall|a: int| 0 <= a < j ==> (#[trigger] entries@[a]).directory@ == keys@[a]@,
            forall|a: int| 0 <= a < j
                ==> spec_indices_as_ints((#[trigger] entries@[a]).indices@)
                    == spec_indices_for(pdv, entries@[a].directory@),
        decreases keys.len() - j,
    {
        let mut idxs: Vec<usize> = Vec::new();
        let mut t: usize = 0;
        while t < patterns.len()
            invariant
                0 <= t <= patterns.len(),
                pdv == patterns.deep_view(),
                j < keys.len(),
                spec_indices_as_ints(idxs@) == spec_indices_for(pdv.take(t as int), keys@[j as int]@),
            decreases patterns.len() - t,
        {
            let ghost pre = pdv.take(t as int);
            let ghost cur = pdv.take(t as int + 1);
            proof {
                assert(cur.drop_last() =~= pre);
                assert(cur.last() == pdv[t as int]);
                assert(pdv[t as int] == patterns@[t as int]@);
            }
            if patterns[t].directory.eq(&keys[j]) {
                let ghost old_idxs = idxs@;
                idxs.push(t);
                proof {
                    assert(idxs@ =~= old_idxs.push(t));
                    assert(spec_indices_as_ints(idxs@)
                        =~= spec_indices_as_ints(old_idxs).push(t as int));
                }
            }
            t = t + 1;
        }
        proof {
            assert(pdv.take(patterns@.len() as int) =~= pdv);
        }
        entries.push(IndexEntry { directory: keys[j].clone(), indices: idxs });
        j = j + 1;
    }
    let r = DirectoryIndex { entries };
    proof {
        assert(forall|a: int, b: int| 0 <= a < b < r.entries@.len()
            ==> r.entries@[a].directory@ != r.entries@[b].directory@);
        assert(forall|a: int| 0 <= a < r.entries@.len()
            ==> spec_indices_as_ints((#[trigger] r.entries@[a]).indices@)
                == spec_indices_for(pdv, r.entries@[a].directory@));
        assert forall|k: int| 0 <= k < pdv.len()
            implies index_has_key(r, (#[trigger] pdv[k]).directory) by {
            let w = choose|w: int| 0 <= w < keys.deep_view().len()
                && keys.deep_view()[w] == pdv[k].directory;
            assert(keys.deep_view()[w] == keys@[w]@);
            assert(r.entries@[w].directory@ == keys@[w]@);
        }
        assert(index_wf(r, pdv));
    }
    r
}

/// The name of the first pattern, in registry order, that watches basename
/// `name` and whose sentinel is satisfied among `entries`; `None` when no
/// candidate's sentinel is present.
pub open spec fn spec_first_match(patterns: Seq<PatternModel>, name: Seq<char>, entries: Seq<Seq<char>>) -> Option<Seq<char>>
    decreases patterns.len(),
{
    if patterns.len() == 0 {
        None
    } else {
        let pre = spec_first_match(patterns.drop_last(), name, entries);
        if pre is Some {
            pre
        } else if patterns.last().directory == name
            && spec_sentinel_present(patterns.last().sentinel, entries) {
            Some(patterns.last().name)
        } else {
            None
        }
    }
}

/// The same selection, walking a list of candidate positions instead of the
/// whole registry.
spec fn spec_first_in_indices(patterns: Seq<PatternModel>, idxs: Seq<int>, entries: Seq<Seq<char>>) -> Option<Seq<char>>
    decreases idxs.len(),
{
    if idxs.len() == 0 {
        None
    } else {
        let pre = spec_first_in_indices(patterns, idxs.drop_last(), entries);
        if pre is Some {
            pre
        } else {
            let k = idxs.last();
            if 0 <= k < patterns.len() && spec_sentinel_present(patterns[k].sentinel, entries) {
                Some(patterns[k].name)
            } else {
                None
            }
        }
    }
}

proof fn lemma_indices_for_props(patterns: Seq<PatternModel>, d: Seq<char>)
    ensures
        forall|i: int| 0 <= i < spec_indices_for(patterns, d).len()
            ==> 0 <= #[trigger] spec_indices_for(patterns, d)[i] < patterns.len()
                && patterns[spec_indices_for(patterns, d)[i]].directory == d,
        forall|k: int| 0 <= k < patterns.len() && (#[trigger] patterns[k]).directory == d
            ==> spec_indices_for(patterns, d).contains(k),
    decreases patterns.len(),
{
    if patterns.len() == 0 {
    } else {
        let prior = patterns.drop_last();
        let pre = spec_indices_for(prior, d);
        let whole = spec_indices_for(patterns, d);
        lemma_indices_for_props(prior, d);
        assert forall|i: int| 0 <= i < whole.len()
            implies 0 <= #[trigger] whole[i] < patterns.len()
                && patterns[whole[i]].directory == d by {
            if i < pre.len() {
                assert(whole[i] == pre[i]);
                assert(prior[pre[i]] == patterns[pre[i]]);
            }
        }
        assert forall|k: int| 0 <= k < patterns.len() && (#[trigger] patterns[k]).directory == d
            implies whole.contains(k) by {
            if k < patterns.len() - 1 {
                assert(prior[k] == patterns[k]);
                assert(pre.contains(k));
                let w = choose|w: int| 0 <= w < pre.len() && pre[w] == k;
                assert(whole[w] == k);
            } else {
                assert(whole.last() == k);
            }
        }
    }
}

proof fn lemma_first_in_shrink(patterns: Seq<PatternModel>, idxs: Seq<int>, entries: Seq<Seq<char>>)
    requires
        patterns.len() > 0,
        forall|i: int| 0 <= i < idxs.len() ==> 0 <= #[trigger] idxs[i] < patterns.len() - 1,
    ensures
        spec_first_in_indices(patterns, idxs, entries)
            == spec_first_in_indices(patterns.drop_last(), idxs, entries),
    decreases idxs.len(),
{
    if idxs.len() == 0 {
    } else {
        let prior = idxs.drop_last();
        assert(forall|i: int| 0 <= i < prior.len() ==> prior[i] == idxs[i]);
        lemma_first_in_shrink(patterns, prior, entries);
        let k = idxs.last();
        assert(0 <= k < patterns.len() - 1);
        assert(patterns.drop_last()[k] == patterns[k]);
    }
}

proof fn lemma_first_match_via_indices(patterns: Seq<PatternModel>, name: Seq<char>, entries: Seq<Seq<char>>)
    ensures
        spec_first_match(patterns, name, entries)
            == spec_first_in_indices(patterns, spec_indices_for(patterns, name), entries),
    decreases patterns.len(),
{
    if patterns.len() == 0 {
    } else {
        let prior = patterns.drop_last();
        let pidx = spec_indices_for(prior, name);
        lemma_first_match_via_indices(prior, name, entries);
        lemma_indices_for_props(prior, name);
        lemma_first_in_shrink(patterns, pidx, entries);
        if patterns.last().directory == name {
            let whole = spec_indices_for(patterns, name);
            assert(whole == pidx.push(patterns.len() - 1));
            assert(whole.drop_last() =~= pidx);
            assert(whole.last() == patterns.len() - 1);
        } else {
            assert(spec_indices_for(patterns, name) == pidx);
        }
    }
}

proof fn lemma_first_in_prefix(patterns: Seq<PatternModel>, idxs: Seq<int>, entries: Seq<Seq<char>>, j: int)
    requires
        0 <= j <= idxs.len(),
        spec_first_in_indices(patterns, idxs.take(j), entries) is Some,
    ensures
        spec_first_in_indices(patterns, idxs, entries)
            == spec_first_in_indices(patterns, idxs.take(j), entries),
    decreases idxs.len() - j,
{
    if j == idxs.len() {
        assert(idxs.take(j) =~= idxs);
    } else {
        assert(idxs.take(j + 1).drop_last() =~= idxs.take(j));
        lemma_first_in_prefix(patterns, idxs, entries, j + 1);
    }
}

proof fn lemma_first_match_none(patterns: Seq<PatternModel>, name: Seq<char>, entries: Seq<Seq<char>>)
    requires
        forall|k: int| 0 <= k < patterns.len() ==> (#[trigger] patterns[k]).directory != name,
    ensures
        spec_first_match(patterns, name, entries) is None,
    decreases patterns.len(),
{
    if patterns.len() == 0 {
    } else {
        let prior = patterns.drop_last();
        assert(forall|k: int| 0 <= k < prior.len() ==> (#[trigger] prior[k]) == patterns[k]);
        lemma_first_match_none(prior, name, entries);
        assert(patterns.last() == patterns[patterns.len() - 1]);
    }
}

/// Try, in registry order, every pattern watching this basename; the first
/// whose sentinel is present in the parent wins, and no later candidate is
/// evaluated.
fn first_pattern_match(
    patterns: &Vec<Pattern>,
    index: &DirectoryIndex,
    name: &String,
    entries: &Vec<String>,
) -> (r: Option<String>)
    requires
        index_wf(*index, patterns.deep_view()),
    ensures
        match r {
            Some(n) => spec_first_match(patterns.deep_view(), name@, entries.deep_view())
                == Some(n@),
            None => spec_first_match(patterns.deep_view(), name@, entries.deep_view()) is None,
        },
{
    let ghost pdv = patterns.deep_view();
    let ghost edv = entries.deep_view();
    let mut e: usize = 0;
    while e < index.entries.len()
        invariant
            0 <= e <= index.entries@.len(),
            index_wf(*index, pdv),
            pdv == patterns.deep_view(),
            edv == entries.deep_view(),
            forall|a: int| 0 <= a < e ==> (#[trigger] index.entries@[a]).directory@ != name@,
        decreases index.entries@.len() - e,
    {
        if index.entries[e].directory.eq(name) {
            let ghost idxs = spec_indices_as_ints(index.entries@[e as int].indices@);
            proof {
                assert(idxs == spec_indices_for(pdv, name@));
                lemma_indices_for_props(pdv, name@);
                lemma_first_match_via_indices(pdv, name@, edv);
            }
            let row_len: usize = index.entries[e].indices.len();
            let mut k: usize = 0;
            while k < row_len
                invariant
                    0 <= k <= row_len,
                    e < index.entries@.len(),
                    index_wf(*index, pdv),
                    pdv == patterns.deep_view(),
                    edv == entries.deep_view(),
                    row_len == index.entries@[e as int].indices@.len(),
                    idxs == spec_indices_as_ints(index.entries@[e as int].indices@),
                    idxs == spec_indices_for(pdv, name@),
                    forall|i: int| 0 <= i < idxs.len()
                        ==> 0 <= #[trigger] idxs[i] < pdv.len()
                            && pdv[idxs[i]].directory == name@,
                    spec_first_match(pdv, name@, edv) == spec_first_in_indices(pdv, idxs, edv),
                    spec_first_in_indices(pdv, idxs.take(k as int), edv) is None,
                decreases row_len - k,
            {
                let pi: usize = index.entries[e].indices[k];
                proof {
                    assert(idxs[k as int] == index.entries@[e as int].indices@[k as int] as int);
                    assert(idxs[k as int] == pi as int);
                    assert(pi < patterns@.len());
                }
                let hit = sentinel_exists(entries, patterns[pi].sentinel.as_str());
                proof {
                    assert(idxs.take(k as int + 1).drop_last() =~= idxs.take(k as int));
                    assert(idxs.take(k as int + 1).last() == pi as int);
                    assert(patterns@[pi as int]@ == pdv[pi as int]);
                }
                if hit {
                    proof {
                        assert(spec_first_in_indices(pdv, idxs.take(k as int + 1), edv)
                            == Some(pdv[pi as int].name));
                        lemma_first_in_prefix(pdv, idxs, edv, k as int + 1);
                    }
                    return Some(patterns[pi].name.clone());
                }
                proof {
                    assert(spec_first_in_indices(pdv, idxs.take(k as int + 1), edv) is None);
                }
                k = k + 1;
            }
            proof {
                assert(idxs.take(row_len as int) =~= idxs);
            }
            return None;
        }
        e = e + 1;
    }
    proof {
        assert forall|k: int| 0 <= k < pdv.len()
            implies (#[trigger] pdv[k]).directory != name@ by {
            if pdv[k].directory == name@ {
                assert(index_has_key(*index, pdv[k].directory));
            }
        }
        lemma_first_match_none(pdv, name@, edv);
    }
    None
}

/// The path of a child directory: the parent's path, a separator, the
/// child's basename.
pub open spec fn spec_child_path(base: Seq<char>, name: Seq<char>) -> Seq<char> {
    base + seq!['/'] + name
}

fn join_path(base: &String, name: &String) -> (r: String)
    ensures
        r@ == spec_child_path(base@, name@),
{
    proof {
        reveal_strlit("/");
        assert(("/")@ =~= seq!['/']);
    }
    base.clone().concat("/").concat(name.as_str())
}

/// One directory visit. In order: a directory in the skip set is pruned
/// silently; one already recorded as a match is pruned silently; otherwise
/// the first satisfied pattern records a match and prunes; otherwise the
/// children are walked, threading the set of matched paths.
pub open spec fn spec_scan_dir(
    path: Seq<char>,
    dir: FsDirModel,
    parent_entries: Seq<Seq<char>>,
    patterns: Seq<PatternModel>,
    skip: Seq<Seq<char>>,
    matched: Seq<Seq<char>>,
) -> (Seq<MatchModel>, Seq<Seq<char>>)
    decreases dir,
{
    if skip.contains(path) {
        (Seq::empty(), matched)
    } else if matched.contains(path) {
        (Seq::empty(), matched)
    } else {
        match spec_first_match(patterns, dir.name, parent_entries) {
            Some(pname) => (
                seq![MatchModel { path: path, pattern_name: pname }],
                matched.push(path),
            ),
            None => spec_scan_children(
                path,
                dir.subdirs,
                spec_entries_of(dir),
                patterns,
                skip,
                matched,
            ),
        }
    }
}

/// Walk a directory's children in order, threading the matched set.
pub open spec fn spec_scan_children(
    base: Seq<char>,
    children: Seq<FsDirModel>,
    entries: Seq<Seq<char>>,
    patterns: Seq<PatternModel>,
    skip: Seq<Seq<char>>,
    matched: Seq<Seq<char>>,
) -> (Seq<MatchModel>, Seq<Seq<char>>)
    decreases children,
{
    if children.len() == 0 {
        (Seq::empty(), matched)
    } else {
        let front = spec_scan_children(base, children.drop_last(), entries, patterns, skip, matched);
        let last = spec_scan_dir(
            spec_child_path(base, children.last().name),
            children.last(),
            entries,
            patterns,
            skip,
            front.1,
        );
        (front.0 + last.0, last.1)
    }
}

/// The entry names of a snapshot, as executable data.
fn entries_of(dir: &FsDir) -> (r: Vec<String>)
    ensures
        r.deep_view() == spec_entries_of(dir_model(*dir)),
{
    let ghost model = dir_model(*dir);
    let mut r: Vec<String> = Vec::new();
    let mut i: usize = 0;
    while i < dir.files.len()
        invariant
            0 <= i <= dir.files@.len(),
            model == dir_model(*dir),
            r.deep_view() =~= dir.files.deep_view().take(i as int),
        decreases dir.files@.len() - i,
    {
        let ghost old_dv = r.deep_view();
        r.push(dir.files[i].clone());
        proof {
            assert(dir.files.deep_view()[i as int] == dir.files@[i as int]@);
            assert(r.deep_view() =~= old_dv.push(dir.files.deep_view()[i as int]));
            assert(r.deep_view() =~= dir.files.deep_view().take(i as int + 1));
        }
        i = i + 1;
    }
    proof {
        assert(dir.files.deep_view().take(dir.files@.len() as int) =~= dir.files.deep_view());
        lemma_dirs_model_index(dir.subdirs@);
    }
    let mut j: usize = 0;
    while j < dir.subdirs.len()
        invariant
            0 <= j <= dir.subdirs@.len(),
            model == dir_model(*dir),
            model.subdirs.len() == dir.subdirs@.len(),
            forall|a: int| 0 <= a < dir.subdirs@.len()
                ==> #[trigger] model.subdirs[a] == dir_model(dir.subdirs@[a]),
            r.deep_view() =~= dir.files.deep_view()
                + model.subdirs.take(j as int).map_values(|c: FsDirModel| c.name),
        decreases dir.subdirs@.len() - j,
    {
        let ghost old_dv = r.deep_view();
        r.push(dir.subdirs[j].name.clone());
        proof {
            assert(r.deep_view() =~= old_dv.push(dir.subdirs@[j as int].name@));
            assert(model.subdirs[j as int].name == dir.subdirs@[j as int].name@);
            assert(r.deep_view() =~= dir.files.deep_view()
                + model.subdirs.take(j as int + 1).map_values(|c: FsDirModel| c.name));
        }
        j = j + 1;
    }
    proof {
        assert(model.subdirs.take(dir.subdirs@.len() as int) =~= model.subdirs);
        assert(r.deep_view() =~= spec_entries_of(model));
    }
    r
}

/// Visit one directory, appending any matches to `out` and recording matched
/// paths in `matched`.
fn scan_dir_rec(
    path: &String,
    dir: &FsDir,
    parent_entries: &Vec<String>,
    patterns: &Vec<Pattern>,
    index: &DirectoryIndex,
    skip: &Vec<String>,
    matched: Vec<String>,
    out: Vec<ScanMatch>,
) -> (r: (Vec<String>, Vec<ScanMatch>))
    requires
        index_wf(*index, patterns.deep_view()),
    ensures
        ({
            let s = spec_scan_dir(
                path@,
                dir_model(*dir),
                parent_entries.deep_view(),
                patterns.deep_view(),
                skip.deep_view(),
                matched.deep_view(),
            );
            r.0.deep_view() == s.1 && r.1.deep_view() == out.deep_view() + s.0
        }),
    decreases *dir,
{
    let ghost s = spec_scan_dir(
        path@,
        dir_model(*dir),
        parent_entries.deep_view(),
        patterns.deep_view(),
        skip.deep_view(),
        matched.deep_view(),
    );
    if contains_string(skip, path) {
        proof {
            assert(out.deep_view() + s.0 =~= out.deep_view());
        }
        return (matched, out);
    }
    if contains_string(&matched, path) {
        proof {
            assert(out.deep_view() + s.0 =~= out.deep_view());
        }
        return (matched, out);
    }
    match first_pattern_match(patterns, index, &dir.name, parent_entries) {
        Some(pname) => {
            let mut matched = matched;
            let mut out = out;
            let ghost m0 = matched.deep_view();
            let ghost o0 = out.deep_view();
            matched.push(path.clone());
            let ghost pn = pname@;
            out.push(ScanMatch { path: path.clone(), pattern_name: pname });
            proof {
                assert(matched.deep_view() =~= m0.push(path@));
                assert(out.deep_view() =~= o0.push(MatchModel { path: path@, pattern_name: pn }));
                assert(out.deep_view() =~= o0 + s.0);
            }
            (matched, out)
        }
        None => {
            let entries = entries_of(dir);
            let ghost model = dir_model(*dir);
            let ghost pdv = patterns.deep_view();
            let ghost sdv = skip.deep_view();
            let ghost m0 = matched.deep_view();
            let ghost o0 = out.deep_view();
            let mut matched = matched;
            let mut out = out;
            proof {
                lemma_dirs_model_index(dir.subdirs@);
            }
            let mut j: usize = 0;
            while j < dir.subdirs.len()
                invariant
                    0 <= j <= dir.subdirs@.len(),
                    index_wf(*index, pdv),
                    pdv == patterns.deep_view(),
                    sdv == skip.deep_view(),
                    model == dir_model(*dir),
                    model.subdirs.len() == dir.subdirs@.len(),
                    forall|a: int| 0 <= a < dir.subdirs@.len()
                        ==> #[trigger] model.subdirs[a] == dir_model(dir.subdirs@[a]),
                    entries.deep_view() == spec_entries_of(model),
                    ({
                        let c = spec_scan_children(
                            path@,
                            model.subdirs.take(j as int),
                            spec_entries_of(model),
                            pdv,
                            sdv,
                            m0,
                        );
                        matched.deep_view() == c.1 && out.deep_view() == o0 + c.0
                    }),
                decreases dir.subdirs@.len() - j,
            {
                let child_path = join_path(path, &dir.subdirs[j].name);
                proof {
                    assert(decreases_to!(*dir => dir.subdirs));
                    assert(decreases_to!(dir.subdirs => dir.subdirs@));
                    assert(decreases_to!(dir.subdirs@ => dir.subdirs@[j as int]));
                }
                let (m2, o2) = scan_dir_rec(
                    &child_path,
                    &dir.subdirs[j],
                    &entries,
                    patterns,
                    index,
                    skip,
                    matched,
                    out,
                );
                matched = m2;
                out = o2;
                proof {
                    let taken = model.subdirs.take(j as int + 1);
                    assert(taken.drop_last() =~= model.subdirs.take(j as int));
                    assert(taken.last() == model.subdirs[j as int]);
                    assert(model.subdirs[j as int].name == dir.subdirs@[j as int].name@);
                    assert(child_path@ == spec_child_path(path@, taken.last().name));
                    let c_cur = spec_scan_children(
                        path@, taken, spec_entries_of(model), pdv, sdv, m0);
                    assert(out.deep_view() =~= o0 + c_cur.0);
                }
                j = j + 1;
            }
            proof {
                assert(model.subdirs.take(dir.subdirs@.len() as int) =~= model.subdirs);
            }
            (matched, out)
        }
    }
}

/// One scan root: its expanded path, the entry names of its parent (empty
/// when the root has no parent), and the snapshot of its tree.
pub struct RootSnapshot {
    pub path: String,
    pub parent_entries: Vec<String>,
    pub dir: FsDir,
}

/// Mathematical image of a scan root.
pub ghost struct RootModel {
    pub path: Seq<char>,
    pub parent_entries: Seq<Seq<char>>,
    pub dir: FsDirModel,
}

impl DeepView for RootSnapshot {
    type V = RootModel;

    open spec fn deep_view(&self) -> RootModel {
        RootModel {
            path: self.path@,
            parent_entries: self.parent_entries.deep_view(),
            dir: dir_model(self.dir),
        }
    }
}

/// Walk each root in order, threading the matched set across roots.
pub open spec fn spec_scan_roots(
    roots: Seq<RootModel>,
    patterns: Seq<PatternModel>,
    skip: Seq<Seq<char>>,
    matched: Seq<Seq<char>>,
) -> (Seq<MatchModel>, Seq<Seq<char>>)
    decreases roots.len(),
{
    if roots.len() == 0 {
        (Seq::empty(), matched)
    } else {
        let front = spec_scan_roots(roots.drop_last(), patterns, skip, matched);
        let last = spec_scan_dir(
            roots.last().path,
            roots.last().dir,
            roots.last().parent_entries,
            patterns,
            skip,
            front.1,
        );
        (front.0 + last.0, last.1)
    }
}

/// The tag carried by matches of the exclude-path pass.
pub open spec fn spec_exclude_tag() -> Seq<char> {
    ("exclude_path")@
}

/// One match per resolved exclude path, in resolved order.
pub open spec fn spec_exclude_matches(paths: Seq<Seq<char>>) -> Seq<MatchModel> {
    paths.map_values(|p: Seq<char>| MatchModel { path: p, pattern_name: spec_exclude_tag() })
}

/// The members of `paths` whose flag is set, in order.
pub open spec fn spec_flagged(paths: Seq<Seq<char>>, flags: Seq<bool>) -> Seq<Seq<char>>
    decreases paths.len(),
{
    if paths.len() == 0 || flags.len() == 0 {
        Seq::empty()
    } else {
        let pre = spec_flagged(paths.drop_last(), flags.drop_last());
        if flags.last() {
            pre.push(paths.last())
        } else {
            pre
        }
    }
}

/// The skip set the walker consults: every resolved skip path, expanded.
pub open spec fn spec_skip_set(
    disabled: Seq<Seq<char>>,
    extras: Seq<Seq<char>>,
    home: Seq<char>,
) -> Seq<Seq<char>> {
    spec_resolved_skip_paths(disabled, extras).map_values(|p: Seq<char>| spec_expand_tilde(home, p))
}

/// Build the set of directories to skip during scanning.
pub fn build_skip_set(config: &Config, home: &str) -> (r: Vec<String>)
    ensures
        r.deep_view() == spec_skip_set(
            config.disable_exclude_paths.deep_view(),
            config.extra_exclude_paths.deep_view(),
            home@,
        ),
{
    let paths = config.resolved_skip_paths();
    let ghost pdv = paths.deep_view();
    let mut r: Vec<String> = Vec::new();
    let mut i: usize = 0;
    while i < paths.len()
        invariant
            0 <= i <= paths@.len(),
            pdv == paths.deep_view(),
            r.deep_view() =~= pdv.take(i as int).map_values(|p: Seq<char>| spec_expand_tilde(home@, p)),
        decreases paths@.len() - i,
    {
        let ghost old_dv = r.deep_view();
        r.push(expand_tilde(home, paths[i].as_str()));
        proof {
            assert(pdv[i as int] == paths@[i as int]@);
            assert(r.deep_view() =~= old_dv.push(spec_expand_tilde(home@, pdv[i as int])));
            assert(r.deep_view()
                =~= pdv.take(i as int + 1).map_values(|p: Seq<char>| spec_expand_tilde(home@, p)));
        }
        i = i + 1;
    }
    proof {
        assert(pdv.take(paths@.len() as int) =~= pdv);
    }
    r
}

/// Everything one scan reports: the matches of the tree walk over the given
/// roots, in traversal order, followed by one match per resolved exclude
/// path that exists on disk (`flags` answers existence, in resolved order).
pub open spec fn spec_scan_optimized(
    patterns: Seq<PatternModel>,
    roots: Seq<RootModel>,
    disabled: Seq<Seq<char>>,
    extras: Seq<Seq<char>>,
    home: Seq<char>,
    flags: Seq<bool>,
) -> Seq<MatchModel> {
    spec_scan_roots(roots, patterns, spec_skip_set(disabled, extras, home), Seq::empty()).0
        + spec_exclude_matches(
            spec_flagged(spec_resolved_exclude_paths(disabled, extras), flags)
                .map_values(|p: Seq<char>| spec_expand_tilde(home, p)),
        )
}

/// Scan all roots for dependency directories matching the given patterns,
/// then append the resolved exclude paths that exist on disk. Skips
/// descending into matched dependency directories for performance.
///
/// `roots` holds a snapshot per existing configured root, in configured
/// order; `exclude_exists` answers, per resolved exclude path, whether the
/// expanded path exists on disk.
pub fn scan_optimized(
    config: &Config,
    patterns: &Vec<Pattern>,
    home: &str,
    roots: &Vec<RootSnapshot>,
    exclude_exists: &Vec<bool>,
) -> (r: Vec<ScanMatch>)
    requires
        exclude_exists@.len() == spec_resolved_exclude_paths(
            config.disable_exclude_paths.deep_view(),
            config.extra_exclude_paths.deep_view(),
        ).len(),
    ensures
        r.deep_view() == spec_scan_optimized(
            patterns.deep_view(),
            roots.deep_view(),
            config.disable_exclude_paths.deep_view(),
            config.extra_exclude_paths.deep_view(),
            home@,
            exclude_exists@,
        ),
{
    let ghost pdv = patterns.deep_view();
    let ghost rdv = roots.deep_view();
    let skip = build_skip_set(config, home);
    let ghost sdv = skip.deep_view();
    let index = build_directory_index(patterns);
    let mut matched: Vec<String> = Vec::new();
    let mut out: Vec<ScanMatch> = Vec::new();
    let mut i: usize = 0;
    while i < roots.len()
        invariant
            0 <= i <= roots@.len(),
            index_wf(index, pdv),
            pdv == patterns.deep_view(),
            rdv == roots.deep_view(),
            sdv == skip.deep_view(),
            ({
                let w = spec_scan_roots(rdv.take(i as int), pdv, sdv, Seq::empty());
                matched.deep_view() == w.1 && out.deep_view() == w.0
            }),
        decreases roots@.len() - i,
    {
        let root = &roots[i];
        let (m2, o2) = scan_dir_rec(
            &root.path,
            &root.dir,
            &root.parent_entries,
            patterns,
            &index,
            &skip,
            matched,
            out,
        );
        matched = m2;
        out = o2;
        proof {
            let taken = rdv.take(i as int + 1);
            assert(taken.drop_last() =~= rdv.take(i as int));
            assert(taken.last() == rdv[i as int]);
            assert(rdv[i as int] == roots@[i as int].deep_view());
            let w_cur = spec_scan_roots(taken, pdv, sdv, Seq::empty());
            assert(out.deep_view() =~= w_cur.0);
        }
        i = i + 1;
    }
    proof {
        assert(rdv.take(roots@.len() as int) =~= rdv);
    }
    let ghost walk = spec_scan_roots(rdv, pdv, sdv, Seq::empty()).0;
    let resolved = config.resolved_exclude_paths();
    let ghost xdv = resolved.deep_view();
    let ghost fdv = exclude_exists@;
    let mut k: usize = 0;
    while k < resolved.len()
        invariant
            0 <= k <= resolved@.len(),
            xdv == resolved.deep_view(),
            fdv == exclude_exists@,
            fdv.len() == xdv.len(),
            out.deep_view() =~= walk + spec_exclude_matches(
                spec_flagged(xdv.take(k as int), fdv.take(k as int))
                    .map_values(|p: Seq<char>| spec_expand_tilde(home@, p)),
            ),
        decreases resolved@.len() - k,
    {
        let ghost flag_pre = spec_flagged(xdv.take(k as int), fdv.take(k as int));
        let ghost flag_cur = spec_flagged(xdv.take(k as int + 1), fdv.take(k as int + 1));
        proof {
            assert(xdv.take(k as int + 1).drop_last() =~= xdv.take(k as int));
            assert(fdv.take(k as int + 1).drop_last() =~= fdv.take(k as int));
            assert(xdv.take(k as int + 1).last() == xdv[k as int]);
            assert(fdv.take(k as int + 1).last() == fdv[k as int]);
            assert(xdv[k as int] == resolved@[k as int]@);
        }
        if exclude_exists[k] {
            let ghost o0 = out.deep_view();
            out.push(ScanMatch {
                path: expand_tilde(home, resolved[k].as_str()),
                pattern_name: "exclude_path".to_owned(),
            });
            proof {
                assert(flag_cur =~= flag_pre.push(xdv[k as int]));
                assert(out.deep_view() =~= o0.push(MatchModel {
                    path: spec_expand_tilde(home@, xdv[k as int]),
                    pattern_name: spec_exclude_tag(),
                }));
                assert(out.deep_view() =~= walk + spec_exclude_matches(
                    flag_cur.map_values(|p: Seq<char>| spec_expand_tilde(home@, p))));
            }
        } else {
            proof {
                assert(flag_cur =~= flag_pre);
            }
        }
        k = k + 1;
    }
    proof {
        assert(xdv.take(resolved@.len() as int) =~= xdv);
        assert(fdv.take(resolved@.len() as int) =~= fdv);
    }
    out
}

proof fn lemma_first_match_is_pattern_name(patterns: Seq<PatternModel>, name: Seq<char>, entries: Seq<Seq<char>>)
    ensures
        spec_first_match(patterns, name, entries) matches Some(n)
            ==> exists|q: int| 0 <= q < patterns.len() && (#[trigger] patterns[q]).name == n,
    decreases patterns.len(),
{
    if patterns.len() == 0 {
    } else {
        let prior = patterns.drop_last();
        lemma_first_match_is_pattern_name(prior, name, entries);
        match spec_first_match(patterns, name, entries) {
            Some(n) => {
                match spec_first_match(prior, name, entries) {
                    Some(m) => {
                        let q = choose|q: int| 0 <= q < prior.len()
                            && (#[trigger] prior[q]).name == m;
                        assert(patterns[q] == prior[q]);
                        assert(patterns[q].name == n);
                    },
                    None => {
                        assert(patterns[patterns.len() - 1].name == n);
                    },
                }
            },
            None => {},
        }
    }
}

/// The paths of the matches a visit emits, in order.
pub open spec fn spec_match_paths(ms: Seq<MatchModel>) -> Seq<Seq<char>> {
    ms.map_values(|m: MatchModel| m.path)
}

/// Bookkeeping of one visit: the outgoing matched set is the incoming one
/// extended by exactly the paths of the new matches; distinctness of the
/// matched set is preserved; no reported path lies in the skip set; every
/// reported name is the name of some active pattern.
pub proof fn lemma_scan_dir_facts(
    path: Seq<char>,
    dir: FsDirModel,
    parent_entries: Seq<Seq<char>>,
    patterns: Seq<PatternModel>,
    skip: Seq<Seq<char>>,
    matched: Seq<Seq<char>>,
)
    ensures
        ({
            let s = spec_scan_dir(path, dir, parent_entries, patterns, skip, matched);
            &&& s.1 == matched + spec_match_paths(s.0)
            &&& matched.no_duplicates() ==> s.1.no_duplicates()
            &&& forall|t: int| 0 <= t < s.0.len() ==> !skip.contains((#[trigger] s.0[t]).path)
            &&& forall|t: int| 0 <= t < s.0.len()
                ==> exists|q: int| 0 <= q < patterns.len()
                    && (#[trigger] s.0[t]).pattern_name == (#[trigger] patterns[q]).name
        }),
    decreases dir,
{
    let s = spec_scan_dir(path, dir, parent_entries, patterns, skip, matched);
    if skip.contains(path) || matched.contains(path) {
        assert(s.1 =~= matched + spec_match_paths(s.0));
    } else {
        match spec_first_match(patterns, dir.name, parent_entries) {
            Some(pname) => {
                assert(s.1 =~= matched + spec_match_paths(s.0));
                if matched.no_duplicates() {
                    assert forall|a: int, b: int|
                        0 <= a < s.1.len() && 0 <= b < s.1.len() && a != b
                        implies s.1[a] != s.1[b] by {
                        if a < matched.len() && b < matched.len() {
                        } else if a == matched.len() {
                            assert(s.1[b] == matched[b]);
                            assert(!matched.contains(path));
                        } else if b == matched.len() {
                            assert(s.1[a] == matched[a]);
                            assert(!matched.contains(path));
                        }
                    }
                }
                lemma_first_match_is_pattern_name(patterns, dir.name, parent_entries);
            },
            None => {
                lemma_scan_children_facts(
                    path,
                    dir.subdirs,
                    spec_entries_of(dir),
                    patterns,
                    skip,
                    matched,
                );
            },
        }
    }
}

proof fn lemma_scan_children_facts(
    base: Seq<char>,
    children: Seq<FsDirModel>,
    entries: Seq<Seq<char>>,
    patterns: Seq<PatternModel>,
    skip: Seq<Seq<char>>,
    matched: Seq<Seq<char>>,
)
    ensures
        ({
            let s = spec_scan_children(base, children, entries, patterns, skip, matched);
            &&& s.1 == matched + spec_match_paths(s.0)
            &&& matched.no_duplicates() ==> s.1.no_duplicates()
            &&& forall|t: int| 0 <= t < s.0.len() ==> !skip.contains((#[trigger] s.0[t]).path)
            &&& forall|t: int| 0 <= t < s.0.len()
                ==> exists|q: int| 0 <= q < patterns.len()
                    && (#[trigger] s.0[t]).pattern_name == (#[trigger] patterns[q]).name
        }),
    decreases children,
{
    let s = spec_scan_children(base, children, entries, patterns, skip, matched);
    if children.len() == 0 {
        assert(s.1 =~= matched + spec_match_paths(s.0));
    } else {
        let front = spec_scan_children(base, children.drop_last(), entries, patterns, skip, matched);
        let cpath = spec_child_path(base, children.last().name);
        let last = spec_scan_dir(cpath, children.last(), entries, patterns, skip, front.1);
        lemma_scan_children_facts(base, children.drop_last(), entries, patterns, skip, matched);
        lemma_scan_dir_facts(cpath, children.last(), entries, patterns, skip, front.1);
        assert(s.1 =~= matched + spec_match_paths(s.0)) by {
            assert(spec_match_paths(front.0 + last.0)
                =~= spec_match_paths(front.0) + spec_match_paths(last.0));
        }
        assert forall|t: int| 0 <= t < s.0.len()
            implies !skip.contains((#[trigger] s.0[t]).path) by {
            if t < front.0.len() {
                assert(s.0[t] == front.0[t]);
            } else {
                assert(s.0[t] == last.0[t - front.0.len()]);
            }
        }
        assert forall|t: int| 0 <= t < s.0.len()
            implies exists|q: int| 0 <= q < patterns.len()
                && (#[trigger] s.0[t]).pattern_name == (#[trigger] patterns[q]).name by {
            if t < front.0.len() {
                assert(s.0[t] == front.0[t]);
            } else {
                assert(s.0[t] == last.0[t - front.0.len()]);
            }
        }
    }
}

/// Bookkeeping across the whole walk, starting from an empty matched set.
pub proof fn lemma_scan_roots_facts(
    roots: Seq<RootModel>,
    patterns: Seq<PatternModel>,
    skip: Seq<Seq<char>>,
    matched: Seq<Seq<char>>,
)
    ensures
        ({
            let s = spec_scan_roots(roots, patterns, skip, matched);
            &&& s.1 == matched + spec_match_paths(s.0)
            &&& matched.no_duplicates() ==> s.1.no_duplicates()
            &&& forall|t: int| 0 <= t < s.0.len() ==> !skip.contains((#[trigger] s.0[t]).path)
            &&& forall|t: int| 0 <= t < s.0.len()
                ==> exists|q: int| 0 <= q < patterns.len()
                    && (#[trigger] s.0[t]).pattern_name == (#[trigger] patterns[q]).name
        }),
    decreases roots.len(),
{
    let s = spec_scan_roots(roots, patterns, skip, matched);
    if roots.len() == 0 {
        assert(s.1 =~= matched + spec_match_paths(s.0));
    } else {
        let front = spec_scan_roots(roots.drop_last(), patterns, skip, matched);
        let last = spec_scan_dir(
            roots.last().path,
            roots.last().dir,
            roots.last().parent_entries,
            patterns,
            skip,
            front.1,
        );
        lemma_scan_roots_facts(roots.drop_last(), patterns, skip, matched);
        lemma_scan_dir_facts(
            roots.last().path,
            roots.last().dir,
            roots.last().parent_entries,
            patterns,
            skip,
            front.1,
        );
        assert(s.1 =~= matched + spec_match_paths(s.0)) by {
            assert(spec_match_paths(front.0 + last.0)
                =~= spec_match_paths(front.0) + spec_match_paths(last.0));
        }
        assert forall|t: int| 0 <= t < s.0.len()
            implies !skip.contains((#[trigger] s.0[t]).path) by {
            if t < front.0.len() {
                assert(s.0[t] == front.0[t]);
            } else {
                assert(s.0[t] == last.0[t - front.0.len()]);
            }
        }
        assert forall|t: int| 0 <= t < s.0.len()
            implies exists|q: int| 0 <= q < patterns.len()
                && (#[trigger] s.0[t]).pattern_name == (#[trigger] patterns[q]).name by {
            if t < front.0.len() {
                assert(s.0[t] == front.0[t]);
            } else {
                assert(s.0[t] == last.0[t - front.0.len()]);
            }
        }
    }
}

/// Law: no directory is ever reported twice by the tree walk: the paths of
/// the pattern matches of one scan are pairwise distinct. Traversal stops
/// descending the instant a directory matches, and the matched set blocks a
/// second report from another root.
pub proof fn lemma_scan_matches_distinct(
    roots: Seq<RootModel>,
    patterns: Seq<PatternModel>,
    skip: Seq<Seq<char>>,
)
    ensures
        spec_match_paths(spec_scan_roots(roots, patterns, skip, Seq::empty()).0).no_duplicates(),
{
    let s = spec_scan_roots(roots, patterns, skip, Seq::empty());
    lemma_scan_roots_facts(roots, patterns, skip, Seq::empty());
    assert(Seq::<Seq<char>>::empty().no_duplicates());
    assert(s.1 == Seq::<Seq<char>>::empty() + spec_match_paths(s.0));
    assert(s.1 =~= spec_match_paths(s.0));
}

/// Law: a path in the skip set is never reported by the tree walk, even
/// when it would otherwise match a pattern: the skip check comes strictly
/// before the pattern check.
pub proof fn lemma_scan_respects_skip(
    roots: Seq<RootModel>,
    patterns: Seq<PatternModel>,
    skip: Seq<Seq<char>>,
)
    ensures
        forall|t: int| 0 <= t < spec_scan_roots(roots, patterns, skip, Seq::empty()).0.len()
            ==> !skip.contains(
                (#[trigger] spec_scan_roots(roots, patterns, skip, Seq::empty()).0[t]).path),
{
    lemma_scan_roots_facts(roots, patterns, skip, Seq::empty());
}

/// `p` lies strictly inside the directory at `base`: `base` is a proper
/// prefix of `p` and the next character is the path separator.
pub open spec fn spec_path_under(p: Seq<char>, base: Seq<char>) -> bool {
    base.is_prefix_of(p) && p.len() > base.len() && p[base.len() as int] == '/'
}

/// `p` is the directory at `base` itself or lies inside it.
pub open spec fn spec_in_region(p: Seq<char>, base: Seq<char>) -> bool {
    p == base || spec_path_under(p, base)
}

proof fn lemma_region_trans(m: Seq<char>, c: Seq<char>, p: Seq<char>)
    requires
        spec_in_region(m, c),
        spec_path_under(c, p),
    ensures
        spec_path_under(m, p),
{
    if m == c {
    } else {
        assert(p.is_prefix_of(m)) by {
            assert forall|i: int| 0 <= i < p.len() implies p[i] == m[i] by {
                assert(p[i] == c[i]);
                assert(c[i] == m[i]);
            }
            assert(p =~= m.subrange(0, p.len() as int));
        }
        assert(m[p.len() as int] == c[p.len() as int]);
    }
}

proof fn lemma_child_under(base: Seq<char>, name: Seq<char>)
    ensures
        spec_path_under(spec_child_path(base, name), base),
{
    let c = spec_child_path(base, name);
    assert(base =~= c.subrange(0, base.len() as int));
    assert(c[base.len() as int] == '/');
}

proof fn lemma_scan_dir_region(
    path: Seq<char>,
    dir: FsDirModel,
    parent_entries: Seq<Seq<char>>,
    patterns: Seq<PatternModel>,
    skip: Seq<Seq<char>>,
    matched: Seq<Seq<char>>,
)
    ensures
        ({
            let s = spec_scan_dir(path, dir, parent_entries, patterns, skip, matched);
            forall|t: int| 0 <= t < s.0.len() ==> spec_in_region((#[trigger] s.0[t]).path, path)
        }),
    decreases dir,
{
    let s = spec_scan_dir(path, dir, parent_entries, patterns, skip, matched);
    if skip.contains(path) || matched.contains(path) {
    } else {
        match spec_first_match(patterns, dir.name, parent_entries) {
            Some(pname) => {
                assert(s.0.len() == 1);
                assert(s.0[0].path == path);
            },
            None => {
                lemma_scan_children_region(
                    path, dir.subdirs, spec_entries_of(dir), patterns, skip, matched);
                let c = spec_scan_children(
                    path, dir.subdirs, spec_entries_of(dir), patterns, skip, matched);
                assert forall|t: int| 0 <= t < s.0.len()
                    implies spec_in_region((#[trigger] s.0[t]).path, path) by {
                    assert(s.0[t] == c.0[t]);
                    assert(spec_path_under(c.0[t].path, path));
                }
            },
        }
    }
}

proof fn lemma_scan_children_region(
    base: Seq<char>,
    children: Seq<FsDirModel>,
    entries: Seq<Seq<char>>,
    patterns: Seq<PatternModel>,
    skip: Seq<Seq<char>>,
    matched: Seq<Seq<char>>,
)
    ensures
        ({
            let s = spec_scan_children(base, children, entries, patterns, skip, matched);
            forall|t: int| 0 <= t < s.0.len() ==> spec_path_under((#[trigger] s.0[t]).path, base)
        }),
    decreases children,
{
    let s = spec_scan_children(base, children, entries, patterns, skip, matched);
    if children.len() == 0 {
    } else {
        let front = spec_scan_children(base, children.drop_last(), entries, patterns, skip, matched);
        let cpath = spec_child_path(base, children.last().name);
        let last = spec_scan_dir(cpath, children.last(), entries, patterns, skip, front.1);
        lemma_scan_children_region(base, children.drop_last(), entries, patterns, skip, matched);
        lemma_scan_dir_region(cpath, children.last(), entries, patterns, skip, front.1);
        lemma_child_under(base, children.last().name);
        assert forall|t: int| 0 <= t < s.0.len()
            implies spec_path_under((#[trigger] s.0[t]).path, base) by {
            if t < front.0.len() {
                assert(s.0[t] == front.0[t]);
            } else {
                assert(s.0[t] == last.0[t - front.0.len()]);
                lemma_region_trans(last.0[t - front.0.len()].path, cpath, base);
            }
        }
    }
}

proof fn lemma_region_step(path: Seq<char>, name: Seq<char>, s: Seq<char>)
    requires
        !name.contains('/'),
        !spec_in_region(path, s),
        spec_in_region(spec_child_path(path, name), s),
    ensures
        spec_child_path(path, name) == s,
{
    let c = spec_child_path(path, name);
    if c == s {
    } else {
        assert(c.len() == path.len() + 1 + name.len());
        assert(forall|i: int| 0 <= i < path.len() ==> c[i] == path[i]);
        assert(c[path.len() as int] == '/');
        assert(forall|k: int| 0 <= k < name.len() ==> c[path.len() + 1 + k] == name[k]);
        assert(forall|i: int| 0 <= i < s.len() ==> s[i] == c[i]);
        if s.len() < path.len() {
            assert(spec_path_under(path, s)) by {
                assert forall|i: int| 0 <= i < s.len() implies s[i] == path[i] by {
                    assert(s[i] == c[i]);
                }
                assert(s =~= path.subrange(0, s.len() as int));
                assert(path[s.len() as int] == c[s.len() as int]);
            }
            assert(false);
        } else if s.len() == path.len() {
            assert(s =~= path);
            assert(false);
        } else {
            let k = s.len() - path.len() - 1;
            assert(c[s.len() as int] == '/');
            if s.len() == path.len() + 1 + name.len() {
                assert(s.len() == c.len());
                assert(s =~= c);
                assert(false);
            } else {
                assert(0 <= k < name.len());
                assert(c[path.len() + 1 + k] == name[k]);
                assert(name[k] == '/');
                assert(name.contains('/'));
                assert(false);
            }
        }
    }
}

/// Every subdirectory basename, recursively, is free of the path separator,
/// as basenames listed from a real file system are.
pub open spec fn wf_children(ds: Seq<FsDirModel>) -> bool
    decreases ds,
{
    if ds.len() == 0 {
        true
    } else {
        wf_children(ds.drop_last())
        && !ds.last().name.contains('/')
        && wf_children(ds.last().subdirs)
    }
}

proof fn lemma_scan_dir_avoids(
    path: Seq<char>,
    dir: FsDirModel,
    parent_entries: Seq<Seq<char>>,
    patterns: Seq<PatternModel>,
    skip: Seq<Seq<char>>,
    matched: Seq<Seq<char>>,
    s: Seq<char>,
)
    requires
        skip.contains(s),
        wf_children(dir.subdirs),
        !spec_in_region(path, s),
    ensures
        ({
            let r = spec_scan_dir(path, dir, parent_entries, patterns, skip, matched);
            forall|t: int| 0 <= t < r.0.len() ==> !spec_in_region((#[trigger] r.0[t]).path, s)
        }),
    decreases dir,
{
    let r = spec_scan_dir(path, dir, parent_entries, patterns, skip, matched);
    if skip.contains(path) || matched.contains(path) {
    } else {
        match spec_first_match(patterns, dir.name, parent_entries) {
            Some(pname) => {
                assert(r.0.len() == 1);
                assert(r.0[0].path == path);
            },
            None => {
                lemma_scan_children_avoids(
                    path, dir.subdirs, spec_entries_of(dir), patterns, skip, matched, s);
                let c = spec_scan_children(
                    path, dir.subdirs, spec_entries_of(dir), patterns, skip, matched);
                assert forall|t: int| 0 <= t < r.0.len()
                    implies !spec_in_region((#[trigger] r.0[t]).path, s) by {
                    assert(r.0[t] == c.0[t]);
                }
            },
        }
    }
}

proof fn lemma_scan_children_avoids(
    base: Seq<char>,
    children: Seq<FsDirModel>,
    entries: Seq<Seq<char>>,
    patterns: Seq<PatternModel>,
    skip: Seq<Seq<char>>,
    matched: Seq<Seq<char>>,
    s: Seq<char>,
)
    requires
        skip.contains(s),
        wf_children(children),
        !spec_in_region(base, s),
    ensures
        ({
            let r = spec_scan_children(base, children, entries, patterns, skip, matched);
            forall|t: int| 0 <= t < r.0.len() ==> !spec_in_region((#[trigger] r.0[t]).path, s)
        }),
    decreases children,
{
    let r = spec_scan_children(base, children, entries, patterns, skip, matched);
    if children.len() == 0 {
    } else {
        let front = spec_scan_children(base, children.drop_last(), entries, patterns, skip, matched);
        let cpath = spec_child_path(base, children.last().name);
        let last = spec_scan_dir(cpath, children.last(), entries, patterns, skip, front.1);
        lemma_scan_children_avoids(base, children.drop_last(), entries, patterns, skip, matched, s);
        if !spec_in_region(cpath, s) {
            lemma_scan_dir_avoids(cpath, children.last(), entries, patterns, skip, front.1, s);
        } else {
            lemma_region_step(base, children.last().name, s);
            assert(skip.contains(cpath));
            assert(last.0 =~= Seq::<MatchModel>::empty());
        }
        assert forall|t: int| 0 <= t < r.0.len()
            implies !spec_in_region((#[trigger] r.0[t]).path, s) by {
            if t < front.0.len() {
                assert(r.0[t] == front.0[t]);
            } else {
                assert(r.0[t] == last.0[t - front.0.len()]);
            }
        }
    }
}

/// Law (skip-set enforcement): a skipped directory is never descended into.
/// When no configured root lies at or inside a path of the skip set, the
/// tree walk reports nothing at or under that path, even where a pattern
/// would otherwise match there.
pub proof fn lemma_skip_prunes_subtree(
    roots: Seq<RootModel>,
    patterns: Seq<PatternModel>,
    skip: Seq<Seq<char>>,
    matched: Seq<Seq<char>>,
    s: Seq<char>,
)
    requires
        skip.contains(s),
        forall|i: int| 0 <= i < roots.len() ==> wf_children((#[trigger] roots[i]).dir.subdirs),
        forall|i: int| 0 <= i < roots.len() ==> !spec_in_region((#[trigger] roots[i]).path, s),
    ensures
        ({
            let r = spec_scan_roots(roots, patterns, skip, matched);
            forall|t: int| 0 <= t < r.0.len() ==> !spec_in_region((#[trigger] r.0[t]).path, s)
        }),
    decreases roots.len(),
{
    let r = spec_scan_roots(roots, patterns, skip, matched);
    if roots.len() == 0 {
    } else {
        let front = spec_scan_roots(roots.drop_last(), patterns, skip, matched);
        let last = spec_scan_dir(
            roots.last().path,
            roots.last().dir,
            roots.last().parent_entries,
            patterns,
            skip,
            front.1,
        );
        assert(forall|i: int| 0 <= i < roots.len() - 1
            ==> (#[trigger] roots.drop_last()[i]) == roots[i]);
        lemma_skip_prunes_subtree(roots.drop_last(), patterns, skip, matched, s);
        assert(roots.last() == roots[roots.len() - 1]);
        lemma_scan_dir_avoids(
            roots.last().path,
            roots.last().dir,
            roots.last().parent_entries,
            patterns,
            skip,
            front.1,
            s,
        );
        assert forall|t: int| 0 <= t < r.0.len()
            implies !spec_in_region((#[trigger] r.0[t]).path, s) by {
            if t < front.0.len() {
                assert(r.0[t] == front.0[t]);
            } else {
                assert(r.0[t] == last.0[t - front.0.len()]);
            }
        }
    }
}

proof fn lemma_exclude_once_count(ex: Seq<Seq<char>>, p: Seq<char>)
    requires
        ex.no_duplicates(),
    ensures
        spec_exclude_matches(ex).filter(
            |m: MatchModel| m.path == p && m.pattern_name == spec_exclude_tag(),
        ).len() == if ex.contains(p) { 1int } else { 0 },
    decreases ex.len(),
{
    reveal(Seq::filter);
    let pred = |m: MatchModel| m.path == p && m.pattern_name == spec_exclude_tag();
    if ex.len() == 0 {
        assert(spec_exclude_matches(ex) =~= Seq::<MatchModel>::empty());
        if ex.contains(p) {
            let w = choose|w: int| 0 <= w < ex.len() && ex[w] == p;
        }
    } else {
        let prior = ex.drop_last();
        assert(prior.no_duplicates());
        lemma_exclude_once_count(prior, p);
        let whole = spec_exclude_matches(ex);
        let front = spec_exclude_matches(prior);
        assert(whole =~= front.push(MatchModel { path: ex.last(), pattern_name: spec_exclude_tag() }));
        assert(whole.drop_last() =~= front);
        assert(whole.last() == MatchModel { path: ex.last(), pattern_name: spec_exclude_tag() });
        assert(whole.filter(pred) == if pred(whole.last()) {
            whole.drop_last().filter(pred).push(whole.last())
        } else {
            whole.drop_last().filter(pred)
        });
        assert(whole.drop_last().filter(pred) == front.filter(pred));
        if ex.last() == p {
            assert(!prior.contains(p)) by {
                if prior.contains(p) {
                    let w = choose|w: int| 0 <= w < prior.len() && prior[w] == p;
                    assert(ex[w] == p);
                    assert(ex[ex.len() - 1] == p);
                }
            }
            assert(ex.contains(p)) by {
                assert(ex[ex.len() - 1] == p);
            }
        } else {
            assert(ex.contains(p) == prior.contains(p)) by {
                if ex.contains(p) {
                    let w = choose|w: int| 0 <= w < ex.len() && ex[w] == p;
                    assert(prior[w] == p);
                    assert(prior.contains(p));
                }
                if prior.contains(p) {
                    let w = choose|w: int| 0 <= w < prior.len() && prior[w] == p;
                    assert(ex[w] == p);
                }
            }
        }
    }
}

/// Law (exclude-path pass independence): a resolved exclude path that exists
/// on disk appears exactly once in the final match sequence under the
/// exclude-path tag, whether or not the tree walk separately visited it.
/// The hypothesis on the pattern names rules out a user pattern that borrows
/// the reserved tag; the expanded existing paths are assumed pairwise
/// distinct, as they are whenever no extra names the expansion of another.
pub proof fn lemma_exclude_path_reported_once(
    patterns: Seq<PatternModel>,
    roots: Seq<RootModel>,
    disabled: Seq<Seq<char>>,
    extras: Seq<Seq<char>>,
    home: Seq<char>,
    flags: Seq<bool>,
    p: Seq<char>,
)
    requires
        ({
            let ex = spec_flagged(spec_resolved_exclude_paths(disabled, extras), flags)
                .map_values(|q: Seq<char>| spec_expand_tilde(home, q));
            ex.no_duplicates() && ex.contains(p)
        }),
        forall|q: int| 0 <= q < patterns.len()
            ==> (#[trigger] patterns[q]).name != spec_exclude_tag(),
    ensures
        spec_scan_optimized(patterns, roots, disabled, extras, home, flags).filter(
            |m: MatchModel| m.path == p && m.pattern_name == spec_exclude_tag(),
        ).len() == 1,
{
    let pred = |m: MatchModel| m.path == p && m.pattern_name == spec_exclude_tag();
    let skipset = spec_skip_set(disabled, extras, home);
    let walk = spec_scan_roots(roots, patterns, skipset, Seq::empty()).0;
    let ex = spec_flagged(spec_resolved_exclude_paths(disabled, extras), flags)
        .map_values(|q: Seq<char>| spec_expand_tilde(home, q));
    let excl = spec_exclude_matches(ex);
    lemma_scan_roots_facts(roots, patterns, skipset, Seq::empty());
    let npred = |m: MatchModel| !pred(m);
    assert(walk.all(npred)) by {
        assert forall|t: int| 0 <= t < walk.len() implies #[trigger] npred(walk[t]) by {
            let q = choose|q: int| 0 <= q < patterns.len()
                && (#[trigger] walk[t]).pattern_name == patterns[q].name;
            assert(walk[t].pattern_name != spec_exclude_tag());
        }
    }
    walk.lemma_all_neg_filter_empty(pred);
    Seq::<MatchModel>::filter_distributes_over_add(walk, excl, pred);
    lemma_exclude_once_count(ex, p);
    assert((walk + excl).filter(pred).len() == walk.filter(pred).len() + excl.filter(pred).len());
    assert(spec_scan_optimized(patterns, roots, disabled, extras, home, flags) == walk + excl);
}

} // verus!
