//! A store that keeps each entry in a file of one directory.

use vstd::prelude::*;
use vstd::string::StringExecFns;

verus! {

/// The directory that holds the entry files.
#[derive(Debug)]
pub struct Filesystem {
    path: String,
}

impl Filesystem {
    /// The directory of the store.
    pub closed spec fn root(&self) -> Seq<char> {
        self.path@
    }

    /// A store over the directory `path`.
    pub fn new(path: String) -> (r: Filesystem)
        ensures
            r.root() == path@,
    {
        Filesystem { path }
    }

    /// The pattern that the entry files of the store match.
    pub fn entry_pattern(&self) -> (r: String)
        ensures
            r@ == self.root() + "/*.md"@,
    {
        let mut pattern = self.path.clone();
        pattern.append("/*.md");
        pattern
    }
}

} // verus!
