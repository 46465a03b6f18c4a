//! The record of a run: which paths were newly excluded, with the pattern
//! that matched each and a human-readable size. Reading and writing the
//! record on disk is host glue and lives outside the library.

use vstd::prelude::*;

verus! {

/// One path excluded in a run.
#[derive(Debug)]
pub struct ExcludedEntry {
    pub path: String,
    pub pattern: String,
    pub size: String,
}

impl Clone for ExcludedEntry {
    fn clone(&self) -> (r: Self)
        ensures
            r.path@ == self.path@,
            r.pattern@ == self.pattern@,
            r.size@ == self.size@,
    {
        ExcludedEntry {
            path: self.path.clone(),
            pattern: self.pattern.clone(),
            size: self.size.clone(),
        }
    }
}

/// The outcome of the most recent run.
#[derive(Debug)]
pub struct RunState {
    pub last_run: String,
    pub excluded_count: usize,
    pub already_excluded_count: usize,
    pub entries: Vec<ExcludedEntry>,
}

/// Where the run record lives, relative to the home directory.
pub fn state_path(home: &str) -> (r: String)
    ensures
        r@ == home@ + ("/.local/state/tmignore/state.json")@,
{
    home.to_owned().concat("/.local/state/tmignore/state.json")
}

} // verus!
