//! The arguments of one search, and how they are read from a raw argument
//! list.

use vstd::prelude::*;

verus! {

/// Reported for an argument list of more than three entries.
pub const INCORRECT_COUNT: &'static str = "Incorrect number of arguments!";

/// Reported for an argument list that ends before the query.
pub const MISSING_QUERY: &'static str = "Missing 'query' argument.";

/// Reported for an argument list that ends before the file path.
pub const MISSING_FILE_PATH: &'static str = "Missing 'file_path' argument.";

/// What one search needs: the query, where the text comes from, and whether
/// letter case counts.
#[derive(Debug, Clone)]
pub struct Args {
    pub query: String,
    pub file_path: String,
    pub case_sensitive: bool,
}

/// An `Args` as plain values.
pub struct ArgsView {
    pub query: Seq<char>,
    pub file_path: Seq<char>,
    pub case_sensitive: bool,
}

impl View for Args {
    type V = ArgsView;

    open spec fn view(&self) -> ArgsView {
        ArgsView {
            query: self.query@,
            file_path: self.file_path@,
            case_sensitive: self.case_sensitive,
        }
    }
}

/// What an argument list stands for. Entry 0 is the program's name, entry 1
/// the query, entry 2 the file path. A list of more than three entries is
/// refused first; then a list without a query; then one without a file
/// path. Case counts unless the caller asks for a case-insensitive search.
pub open spec fn parsed(args: Seq<Seq<char>>, case_insensitive: bool) -> Result<
    ArgsView,
    Seq<char>,
> {
    if args.len() > 3 {
        Err(INCORRECT_COUNT@)
    } else if args.len() < 2 {
        Err(MISSING_QUERY@)
    } else if args.len() < 3 {
        Err(MISSING_FILE_PATH@)
    } else {
        Ok(ArgsView { query: args[1], file_path: args[2], case_sensitive: !case_insensitive })
    }
}

/// An outcome of `Args::new` as plain values.
pub open spec fn outcome_view(outcome: Result<Args, &'static str>) -> Result<ArgsView, Seq<char>> {
    match outcome {
        Ok(read) => Ok(read@),
        Err(message) => Err(message@),
    }
}

impl Args {
    /// Reads the arguments of a search from `args`, the raw argument list
    /// with the program's name in front. `case_insensitive` says whether the
    /// caller asks for a search without regard to case; how the caller
    /// comes to know is its own affair.
    pub fn new(args: Vec<String>, case_insensitive: bool) -> (outcome: Result<Args, &'static str>)
        ensures
            outcome_view(outcome) == parsed(args.deep_view(), case_insensitive),
            outcome is Ok <==> args.len() == 3,
    {
        let mut args = args;
        if args.len() > 3 {
            return Err(INCORRECT_COUNT);
        }
        if args.len() < 2 {
            return Err(MISSING_QUERY);
        }
        if args.len() < 3 {
            return Err(MISSING_FILE_PATH);
        }
        let file_path = args.pop().unwrap();
        let query = args.pop().unwrap();
        Ok(Args { query, file_path, case_sensitive: !case_insensitive })
    }
}

/// The three messages differ from one another, so a caller can tell from
/// the message which of the three failures occurred.
pub proof fn lemma_messages_differ()
    ensures
        INCORRECT_COUNT@ != MISSING_QUERY@,
        INCORRECT_COUNT@ != MISSING_FILE_PATH@,
        MISSING_QUERY@ != MISSING_FILE_PATH@,
{
    reveal_strlit("Incorrect number of arguments!");
    reveal_strlit("Missing 'query' argument.");
    reveal_strlit("Missing 'file_path' argument.");
    // The three differ in length.
    assert(INCORRECT_COUNT@.len() == 30);
    assert(MISSING_QUERY@.len() == 25);
    assert(MISSING_FILE_PATH@.len() == 29);
}

} // verus!
