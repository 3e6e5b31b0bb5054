//! Search configuration built from positional arguments and a mode flag.

use vstd::prelude::*;

verus! {

/// The parameters of one search run: what to look for, where, and how.
pub struct Config {
    /// The string to search for.
    pub query: String,
    /// The path of the file whose lines are searched.
    pub file_path: String,
    /// Whether matching folds both sides to lowercase.
    pub ignore_case: bool,
}

impl Config {
    /// Builds a `Config` from the argument list of an invocation (the first
    /// entry names the program and is skipped) and the already-decided case
    /// mode. Missing positional arguments are configuration errors.
    pub fn build(args: Vec<String>, ignore_case: bool) -> (r: Result<Config, &'static str>)
        ensures
            args@.len() >= 3 ==> r is Ok && (r->Ok_0).query@ == args@[1]@
                && (r->Ok_0).file_path@ == args@[2]@ && (r->Ok_0).ignore_case == ignore_case,
            args@.len() < 2 ==> r is Err && (r->Err_0)@ == "Didn't get a query string"@,
            args@.len() == 2 ==> r is Err && (r->Err_0)@ == "Didn't get a file path"@,
    {
        if args.len() < 2 {
            return Err("Didn't get a query string");
        }
        if args.len() < 3 {
            return Err("Didn't get a file path");
        }
        let query = args[1].clone();
        let file_path = args[2].clone();
        Ok(Config { query, file_path, ignore_case })
    }
}

} // verus!
