//! The validated settings record: the query, the path of the file to search,
//! and the matching mode, assembled from the invocation's positional
//! arguments and from whether the `CASE_INSENSITIVE` environment variable is
//! set.

use vstd::prelude::*;

verus! {

/// The settings a run of the program works under. `case_sensitive` is
/// derived once, at construction: the presence of the `CASE_INSENSITIVE`
/// environment variable disables it.
pub struct Config {
    pub query: String,
    pub filename: String,
    pub case_sensitive: bool,
}

/// Everything `Config::new` promises of its result, as a relation between
/// the argument views and the returned record: with a query and a file name
/// present the record is built exactly from them, and with either missing
/// the matching message is returned.
pub open spec fn new_post(
    args: Seq<Seq<char>>,
    case_insensitive_set: bool,
    r: Result<Config, &'static str>,
) -> bool {
    &&& args.len() >= 3 ==> {
        &&& r is Ok
        &&& r->Ok_0.query@ == args[1]
        &&& r->Ok_0.filename@ == args[2]
        &&& r->Ok_0.case_sensitive == !case_insensitive_set
    }
    &&& args.len() < 2 ==> r is Err && r->Err_0@ == "Didn't get a query string"@
    &&& args.len() == 2 ==> r is Err && r->Err_0@ == "Didn't get a file name"@
}

impl Config {
    /// Build the settings from the positional arguments (`args[0]` being the
    /// program name, then the query, then the file name; anything further is
    /// ignored) and from whether `CASE_INSENSITIVE` is set in the
    /// environment.
    pub fn new(args: &Vec<String>, case_insensitive_set: bool) -> (r: Result<
        Config,
        &'static str,
    >)
        ensures
            new_post(args.deep_view(), case_insensitive_set, r),
    {
        if args.len() < 2 {
            return Err("Didn't get a query string");
        }
        if args.len() < 3 {
            return Err("Didn't get a file name");
        }
        let query = args[1].clone();
        let filename = args[2].clone();
        Ok(Config { query, filename, case_sensitive: !case_insensitive_set })
    }
}

/// Building the settings twice from the same arguments and environment
/// yields the same record: success agrees, and so do every field and any
/// error message.
pub proof fn lemma_new_deterministic(
    args: Seq<Seq<char>>,
    case_insensitive_set: bool,
    r1: Result<Config, &'static str>,
    r2: Result<Config, &'static str>,
)
    requires
        new_post(args, case_insensitive_set, r1),
        new_post(args, case_insensitive_set, r2),
    ensures
        r1 is Ok <==> r2 is Ok,
        r1 is Ok ==> {
            &&& r1->Ok_0.query@ == r2->Ok_0.query@
            &&& r1->Ok_0.filename@ == r2->Ok_0.filename@
            &&& r1->Ok_0.case_sensitive == r2->Ok_0.case_sensitive
        },
        r1 is Err ==> r1->Err_0@ == r2->Err_0@,
{
}

} // verus!
