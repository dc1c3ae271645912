use vstd::prelude::*;
use crate::digits::{all_digits, str_value, parse_usize};

verus! {

/// Why a search request could not be built.
#[derive(Debug, Clone, Copy, PartialEq, Eq, Structural)]
pub enum ConfigError {
    /// The degree of parallelism was given but is not a positive integer.
    InvalidDop,
    /// The working directory was given but is not a directory.
    InvalidRoot,
}

/// The immutable search request that every component reads.
#[derive(Debug)]
pub struct Config {
    pub verbose: bool,
    pub filename: Option<String>,
    pub ignore_filename_case: bool,
    pub content: Option<String>,
    pub ignore_content_case: bool,
    pub dop: usize,
    pub root: String,
}

/// True when `s` is a decimal numeral denoting a positive number that fits
/// in `usize`: the accepted degree-of-parallelism arguments.
pub open spec fn valid_dop(s: Seq<char>) -> bool {
    &&& s.len() > 0
    &&& all_digits(s)
    &&& 1 <= str_value(s) <= usize::MAX
}

/// True when the given degree-of-parallelism argument must be rejected.
pub open spec fn dop_rejected(dop_arg: Option<String>) -> bool {
    match dop_arg {
        Some(s) => !valid_dop(s@),
        None => false,
    }
}

/// True when the given root argument must be rejected: a root was named but
/// it is not a directory.
pub open spec fn root_rejected(root_arg: Option<String>, root_is_dir: bool) -> bool {
    root_arg is Some && !root_is_dir
}

/// Relies on `num_cpus::get`: the number of logical CPUs available to the
/// process. The crate documents that it always returns at least 1.
#[verifier::external_body]
fn detected_cpus() -> (r: usize)
    ensures
        r >= 1,
{
    num_cpus::get()
}

impl Config {
    /// Builds the search request from the already-read command-line values.
    ///
    /// The degree of parallelism must be a positive integer when given and
    /// defaults to the detected CPU count; the root, when given, must be a
    /// directory (`root_is_dir` reports that test) and defaults to the
    /// current working directory `cwd`. A bad degree of parallelism is
    /// reported before a bad root.
    pub fn new(
        verbose: bool,
        filename: Option<String>,
        ignore_filename_case: bool,
        content: Option<String>,
        ignore_content_case: bool,
        dop_arg: Option<String>,
        root_arg: Option<String>,
        root_is_dir: bool,
        cwd: String,
    ) -> (r: Result<Config, ConfigError>)
        ensures
            (r matches Err(ConfigError::InvalidDop)) <==> dop_rejected(dop_arg),
            (r matches Err(ConfigError::InvalidRoot)) <==> (!dop_rejected(dop_arg)
                && root_rejected(root_arg, root_is_dir)),
            (r is Ok) <==> (!dop_rejected(dop_arg) && !root_rejected(root_arg, root_is_dir)),
            match r {
                Ok(c) => {
                    &&& c.verbose == verbose
                    &&& c.filename == filename
                    &&& c.ignore_filename_case == ignore_filename_case
                    &&& c.content == content
                    &&& c.ignore_content_case == ignore_content_case
                    &&& c.dop >= 1
                    &&& match dop_arg {
                        Some(s) => c.dop as nat == str_value(s@),
                        None => true,
                    }
                    &&& match root_arg {
                        Some(p) => c.root == p,
                        None => c.root == cwd,
                    }
                },
                Err(_) => true,
            },
    {
        let dop: usize = match dop_arg {
            Some(s) => {
                match parse_usize(s.as_str()) {
                    Some(v) => {
                        if v == 0 {
                            return Err(ConfigError::InvalidDop);
                        }
                        v
                    },
                    None => {
                        return Err(ConfigError::InvalidDop);
                    },
                }
            },
            None => detected_cpus(),
        };
        let root: String = match root_arg {
            Some(p) => {
                if !root_is_dir {
                    return Err(ConfigError::InvalidRoot);
                }
                p
            },
            None => cwd,
        };
        Ok(
            Config {
                verbose,
                filename,
                ignore_filename_case,
                content,
                ignore_content_case,
                dop,
                root,
            },
        )
    }
}

} // verus!
