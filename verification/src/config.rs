//! The search configuration handed to the library by its caller.

use vstd::prelude::*;
use vstd::string::StringExecFns;

verus! {

/// Parameters of a search run.
#[derive(Debug, PartialEq)]
pub struct Config {
    /// The string to search for.
    pub query: String,
    /// The file or directory to search in.
    pub filename: String,
    /// Case sensitivity.
    pub case: bool,
    /// Verbose logging.
    pub verbose: bool,
    /// Print the whole file before searching.
    pub whole: bool,
    /// Search a directory recursively.
    pub recurse: bool,
}

/// Reads a boolean out of its textual form: exactly `"true"` is true,
/// every other string counts as false.
pub fn string_to_bool(string: String) -> (b: bool)
    ensures
        b == (string@ == "true"@),
{
    let tr: String = String::from_str("true");
    string == tr
}

impl Config {
    /// Builds a `Config` from positional textual arguments: the query, the
    /// file name, and four booleans in the order case, verbose, whole,
    /// recurse.
    pub fn new(args: &[String]) -> (r: Result<Config, &str>)
        requires
            args@.len() >= 7,
        ensures
            r matches Ok(c) && c.query@ == args@[1]@ && c.filename@ == args@[2]@ && c.case == (
            args@[3]@ == "true"@) && c.verbose == (args@[4]@ == "true"@) && c.whole == (args@[5]@
                == "true"@) && c.recurse == (args@[6]@ == "true"@),
    {
        let query = args[1].clone();
        let filename = args[2].clone();
        let case = string_to_bool(args[3].clone());
        let verbose = string_to_bool(args[4].clone());
        let whole = string_to_bool(args[5].clone());
        let recurse = string_to_bool(args[6].clone());

        Ok(Config { query, filename, case, verbose, whole, recurse })
    }
}

} // verus!
