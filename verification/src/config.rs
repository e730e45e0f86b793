use vstd::prelude::*;

verus! {

/// The settings of one search invocation: what to look for, where, and
/// whether matching is case-sensitive. Immutable once constructed.
pub struct Config {
    pub query: String,
    pub filename: String,
    pub case_sensitive: bool,
}

impl Config {
    /// Builds a `Config` from raw invocation arguments, where element 0 is the
    /// program name, element 1 the query and element 2 the filename. The case
    /// flag is computed by the caller (for instance from the environment) and
    /// passed in explicitly. Fails exactly when fewer than two positional
    /// arguments are present.
    pub fn new(args: &[String], case_sensitive: bool) -> (r: Result<Config, &'static str>)
        ensures
            args@.len() >= 3 ==> {
                &&& r is Ok
                &&& r->Ok_0.query@ == args@[1]@
                &&& r->Ok_0.filename@ == args@[2]@
                &&& r->Ok_0.case_sensitive == case_sensitive
            },
            args@.len() < 3 ==> {
                &&& r is Err
                &&& r->Err_0@ == "Not enough parameters"@
            },
    {
        if args.len() < 3 {
            return Result::Err("Not enough parameters");
        }
        Result::Ok(Config { query: args[1].clone(), filename: args[2].clone(), case_sensitive })
    }
}

} // verus!
