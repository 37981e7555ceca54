//! The line-selection step of the driver: once the file contents are in
//! memory, apply the matcher variant that the settings call for. Reading the
//! file and printing the result stay with the caller.

use vstd::prelude::*;

use crate::config::Config;
use crate::matcher::search;
use crate::matcher::search_case_insensitive;
use crate::matcher::search_ci_spec;
use crate::matcher::search_spec;

verus! {

/// The lines of `contents` that the settings select: matched
/// case-sensitively or case-insensitively as `config.case_sensitive` says.
pub fn matching_lines<'a>(config: &Config, contents: &'a str) -> (r: Vec<&'a str>)
    ensures
        r.deep_view() == if config.case_sensitive {
            search_spec(config.query@, contents@)
        } else {
            search_ci_spec(config.query@, contents@)
        },
{
    if config.case_sensitive {
        search(config.query.as_str(), contents)
    } else {
        search_case_insensitive(config.query.as_str(), contents)
    }
}

} // verus!
