//! What one run of a search is asked to do.
use vstd::prelude::*;

use crate::search::MatchMode;

verus! {

/// The message given when the command line does not hold exactly a query
/// and a file name.
pub const USAGE_ERROR: &'static str = "more or fewer than two arguments";

/// The query, the file to search and whether case is ignored.
pub struct Config {
    pub query: String,
    pub filename: String,
    pub case_insensitive: bool,
}

impl Config {
    /// Reads a configuration from the command line `args` (the program name,
    /// then the query, then the file name). `exact_case_forced` says whether
    /// the toggle that forces exact-case search is set: without it, case is
    /// ignored.
    pub fn new(args: &[String], exact_case_forced: bool) -> (r: Result<Config, &'static str>)
        ensures
            r is Err <==> args@.len() != 3,
            r is Err ==> r->Err_0 == USAGE_ERROR,
            r is Ok ==> r->Ok_0.query@ == args@[1]@,
            r is Ok ==> r->Ok_0.filename@ == args@[2]@,
            r is Ok ==> r->Ok_0.case_insensitive == !exact_case_forced,
    {
        if args.len() != 3 {
            return Err(USAGE_ERROR);
        }
        let query = args[1].clone();
        let filename = args[2].clone();
        let case_insensitive = !exact_case_forced;
        Ok(Config { query, filename, case_insensitive })
    }

    /// The way lines are compared with the query.
    pub fn mode(&self) -> (m: MatchMode)
        ensures
            m == (if self.case_insensitive {
                MatchMode::CaseInsensitive
            } else {
                MatchMode::CaseSensitive
            }),
    {
        if self.case_insensitive {
            MatchMode::CaseInsensitive
        } else {
            MatchMode::CaseSensitive
        }
    }
}

} // verus!
