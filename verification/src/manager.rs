//! Summaries of the identities a host knows: the alias and where its
//! storage lives, as text.

use vstd::prelude::*;

verus! {

/// One known identity: its alias and the path of its storage, as text.
#[derive(Debug)]
pub struct MeSummary {
    pub alias: String,
    pub path: String,
}

impl MeSummary {
    /// A summary from its parts.
    pub fn new(alias: &str, path: &str) -> (r: MeSummary)
        ensures
            r.alias@ == alias@,
            r.path@ == path@,
    {
        MeSummary { alias: alias.to_owned(), path: path.to_owned() }
    }
}

} // verus!
