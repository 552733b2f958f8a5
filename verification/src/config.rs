//! The command-line query: one positional argument selects publishing,
//! modifying or building; each mode has short aliases. A wrong argument
//! count or an unknown mode is a configuration error, fatal at startup —
//! the caller exits nonzero before any work begins.

use vstd::prelude::*;
use vstd::string::*;

use crate::text::str_eq;

verus! {

/// The three kinds of query a run can perform: publish a new record,
/// modify an existing one, or build the whole site.
#[derive(Clone, Copy, PartialEq, Eq, Structural, Debug)]
pub enum Query {
    Publish,
    Modify,
    Build,
}

/// The query named by one argument text, if it names any.
pub open spec fn query_of(s: Seq<char>) -> Option<Query> {
    if s == "p"@ || s == "pub"@ || s == "publ"@ || s == "publish"@ {
        Some(Query::Publish)
    } else if s == "m"@ || s == "mod"@ || s == "modi"@ || s == "modify"@ {
        Some(Query::Modify)
    } else if s == "b"@ || s == "bui"@ || s == "buil"@ || s == "build"@ {
        Some(Query::Build)
    } else {
        None
    }
}

/// The run's configuration: which query to perform.
pub struct Config {
    query: Query,
}

impl Config {
    /// Which query this configuration selects.
    pub closed spec fn spec_query(&self) -> Query {
        self.query
    }

    /// Which query this configuration selects.
    pub fn query(&self) -> (q: Query)
        ensures
            q == self.spec_query(),
    {
        self.query
    }

    /// Reads the configuration from the argument list: the program name
    /// and exactly one query argument. Any other argument count, and any
    /// argument that names no query, is a distinct configuration error.
    pub fn new(args: &[String]) -> (r: Result<Config, &'static str>)
        ensures
            match r {
                Ok(c) => args@.len() == 2 && query_of(args@[1]@) == Some(c.spec_query()),
                Err(m) => (args@.len() != 2 && m@ == "Invalid number of arguments"@) || (
                args@.len() == 2 && query_of(args@[1]@) is None && m@ == "Invalid query"@),
            },
    {
        if args.len() != 2 {
            return Err("Invalid number of arguments");
        }
        let arg = args[1].as_str();
        let query = if str_eq(arg, "p") || str_eq(arg, "pub") || str_eq(arg, "publ") || str_eq(
            arg,
            "publish",
        ) {
            Query::Publish
        } else if str_eq(arg, "m") || str_eq(arg, "mod") || str_eq(arg, "modi") || str_eq(
            arg,
            "modify",
        ) {
            Query::Modify
        } else if str_eq(arg, "b") || str_eq(arg, "bui") || str_eq(arg, "buil") || str_eq(
            arg,
            "build",
        ) {
            Query::Build
        } else {
            return Err("Invalid query");
        };
        Ok(Config { query })
    }
}

} // verus!
