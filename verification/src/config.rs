//! The parameters of one search run.

use vstd::prelude::*;

verus! {

/// What a search run needs to know: what to look for, where, and whether
/// letter case counts.
#[derive(Debug, PartialEq, Eq)]
pub struct Config {
    /// The text to look for.
    pub query: String,
    /// The path of the file to look in.
    pub file_path: String,
    /// Whether upper and lower case count as the same.
    pub ignore_case: bool,
}

/// Why no `Config` could be built.
#[derive(Debug, Clone, Copy, PartialEq, Eq, Structural)]
pub enum ConfigError {
    /// Fewer than two arguments were given.
    InsufficientArguments,
}

impl ConfigError {
    /// A description of the error for the user.
    pub fn message(&self) -> (text: &'static str)
        ensures
            text@ == "Not enough arguments"@,
    {
        match self {
            ConfigError::InsufficientArguments => "Not enough arguments",
        }
    }
}

impl Config {
    /// Builds the parameters of a run from the positional arguments, the
    /// program's name not among them, and from the case mode. The first
    /// argument is the query and the second the file path; both are copied.
    /// Arguments after the second are ignored. With fewer than two arguments
    /// there is no `Config`.
    pub fn build(args: &[String], ignore_case: bool) -> (built: Result<Config, ConfigError>)
        ensures
            built is Ok <==> args@.len() >= 2,
            built matches Ok(config) ==> {
                &&& config.query@ == args@[0]@
                &&& config.file_path@ == args@[1]@
                &&& config.ignore_case == ignore_case
            },
            built matches Err(error) ==> error == ConfigError::InsufficientArguments,
    {
        if args.len() < 2 {
            return Err(ConfigError::InsufficientArguments);
        }
        let query = args[0].clone();
        let file_path = args[1].clone();
        Ok(Config { query, file_path, ignore_case })
    }
}

} // verus!
