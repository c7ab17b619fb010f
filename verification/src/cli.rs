//! The command-line surface as plain data: a repository path and the
//! optional filters, exactly as they arrive from the argument parser.

use vstd::prelude::*;

verus! {

/// The arguments one run is invoked with. The dates are kept in their raw
/// `YYYY-MM-DD` text; translating them into a filter configuration happens
/// at the edge, next to the parser.
#[derive(Debug)]
pub struct Args {
    pub path: String,
    pub max_commits: Option<u32>,
    pub since: Option<String>,
    pub until: Option<String>,
}

impl Args {
    pub fn new(
        path: String,
        max_commits: Option<u32>,
        since: Option<String>,
        until: Option<String>,
    ) -> (r: Self)
        ensures
            r.path == path,
            r.max_commits == max_commits,
            r.since == since,
            r.until == until,
    {
        Args { path, max_commits, since, until }
    }
}

} // verus!
