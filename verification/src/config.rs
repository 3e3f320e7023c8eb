use vstd::prelude::*;
use vstd::string::StrSliceExecFns;
use crate::matching::contains_query;
use crate::matching::has_substring;
use crate::search::matching_lines;
use crate::search::matching_lines_ci;
use crate::search::search;
use crate::search::search_case_insensitive;

verus! {

/// A validated search configuration: where to look, what to look for, and
/// whether to compare case-insensitively.  Immutable once built.
pub struct Config {
    pub file_path: String,
    pub query: String,
    pub ignore_case: bool,
}

/// Why a configuration could not be built from the given arguments.
#[derive(Clone, Copy, Debug, PartialEq, Eq, Structural)]
pub enum ConfigError {
    /// A required positional argument (file path or query) is absent.
    MissingArgument,
    /// The file path argument is unusable: empty, or beginning with `-`
    /// (likely a misplaced flag).
    InvalidArgument,
}

/// A usable file path argument: non-empty and not beginning with `-`.
/// A configuration's file path is non-empty by definition; the error
/// taxonomy names no separate case for an empty one, so it is rejected
/// as invalid alongside flag-like arguments.
pub open spec fn valid_file_path(arg: Seq<char>) -> bool {
    arg.len() > 0 && arg[0] != '-'
}

/// The optional trailing argument turns case-insensitivity on when it
/// contains `-c` as a substring.
pub open spec fn enables_ignore_case(arg: Seq<char>) -> bool {
    has_substring(arg, seq!['-', 'c'])
}

/// The configured case sensitivity: on when the `IGNORE_CASE` environment
/// variable is set, or when the first argument after the query contains
/// `-c`.  The trailing argument can only turn it on, never off, and
/// arguments past it are ignored.
pub open spec fn spec_ignore_case(args: Seq<Seq<char>>, env_set: bool) -> bool {
    env_set || (args.len() > 3 && enables_ignore_case(args[3]))
}

impl Config {
    /// Builds a `Config` from the process arguments and the presence of
    /// the `IGNORE_CASE` environment variable.  The first argument is the
    /// program name and is discarded; then come the file path, the query,
    /// and an optional case-insensitivity flag.  A file path that is
    /// empty or begins with `-` is rejected as invalid.  The environment
    /// lookup is injected as `env_ignore_case` so that callers and tests
    /// control it explicitly.
    pub fn build(args: &Vec<String>, env_ignore_case: bool) -> (r: Result<Config, ConfigError>)
        ensures
            args.deep_view().len() < 3 ==> r == Err::<Config, ConfigError>(
                ConfigError::MissingArgument,
            ),
            args.deep_view().len() >= 3 && !valid_file_path(args.deep_view()[1]) ==> r == Err::<
                Config,
                ConfigError,
            >(ConfigError::InvalidArgument),
            args.deep_view().len() >= 3 && valid_file_path(args.deep_view()[1]) ==> {
                &&& r is Ok
                &&& r->Ok_0.file_path@ == args.deep_view()[1]
                &&& r->Ok_0.query@ == args.deep_view()[2]
                &&& r->Ok_0.ignore_case == spec_ignore_case(args.deep_view(), env_ignore_case)
            },
            r is Ok ==> r->Ok_0.file_path@.len() > 0,
    {
        if args.len() < 3 {
            return Err(ConfigError::MissingArgument);
        }
        let file_path = args[1].clone();
        let query = args[2].clone();
        if file_path.as_str().unicode_len() == 0 || file_path.as_str().get_char(0) == '-' {
            return Err(ConfigError::InvalidArgument);
        }
        let mut ignore_case = env_ignore_case;
        if args.len() > 3 {
            proof {
                reveal_strlit("-c");
                assert("-c"@ =~= seq!['-', 'c']);
            }
            if contains_query(args[3].as_str(), "-c", false) {
                ignore_case = true;
            }
        }
        Ok(Config { file_path, query, ignore_case })
    }
}

/// The search step of a run: once the target file is read into `contents`,
/// dispatches on the configured case sensitivity and returns the matching
/// lines, in their original order.
pub fn run_search<'a>(contents: &'a str, config: &Config) -> (result: Vec<&'a str>)
    ensures
        config.ignore_case ==> result.deep_view() == matching_lines_ci(
            contents@,
            config.query@,
        ),
        !config.ignore_case ==> result.deep_view() == matching_lines(contents@, config.query@),
{
    if config.ignore_case {
        search_case_insensitive(contents, config.query.as_str())
    } else {
        search(contents, config.query.as_str())
    }
}

} // verus!
