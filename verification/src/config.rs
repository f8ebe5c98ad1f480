//! Parsing command-line style argument lists into a search configuration.

use vstd::prelude::*;
use crate::text::str_eq;

verus! {

/// Whether an argument selects case-sensitive matching.
pub open spec fn is_case_sensitive_flag(s: Seq<char>) -> bool {
    s == "case_sensitive"@ || s == "-c_s"@ || s == "-cs"@
}

/// A validated search configuration: what to look for, where, and under
/// which case policy.
pub struct Config {
    pub query: String,
    pub file_path: String,
    pub case_sensitive: bool,
}

impl Config {
    /// Builds a configuration from an argument list: the element after the
    /// program name is the query, the next one the file path, and an
    /// optional further element selects the case policy.  Fails when fewer
    /// than three elements are given.
    pub fn build(args: &[String]) -> (r: Result<Config, &'static str>)
        ensures
            r is Err <==> args@.len() < 3,
            r is Err ==> r->Err_0@ == "not enough arguments"@,
            r is Ok ==> {
                let c = r->Ok_0;
                &&& c.query@ == args@[1]@
                &&& c.file_path@ == args@[2]@
                &&& c.case_sensitive == (args@.len() > 3 && is_case_sensitive_flag(args@[3]@))
            },
    {
        if args.len() < 3 {
            return Err("not enough arguments");
        }
        let query = args[1].clone();
        let file_path = args[2].clone();
        let case_sensitive: bool = if args.len() > 3 {
            get_case_sensitivities_from_arg(args[3].as_str())
        } else {
            false
        };
        Ok(Config { query, file_path, case_sensitive })
    }
}

/// Maps a trailing argument to the case policy it selects: exactly
/// `case_sensitive`, `-c_s` and `-cs` select case-sensitive matching, any
/// other value selects case-insensitive matching.
pub fn get_case_sensitivities_from_arg(arg: &str) -> (r: bool)
    ensures
        r == is_case_sensitive_flag(arg@),
{
    if str_eq(arg, "case_sensitive") {
        true
    } else if str_eq(arg, "-c_s") {
        true
    } else if str_eq(arg, "-cs") {
        true
    } else {
        false
    }
}

} // verus!
