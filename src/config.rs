//! The search configuration and its construction from positional arguments.
use vstd::prelude::*;

verus! {

/// Why a search could not be set up.
#[derive(Debug, Clone, Copy, PartialEq, Eq, Structural)]
pub enum ConfigError {
    /// No query was given.
    MissingQuery,
    /// A query was given but no file path.
    MissingFilePath,
    /// Regex mode was selected and the query is not a valid pattern.
    InvalidPattern,
}

impl ConfigError {
    /// A short human-readable description of the error.
    pub fn message(&self) -> (r: &'static str) {
        match self {
            ConfigError::MissingQuery => "missing query",
            ConfigError::MissingFilePath => "missing file path",
            ConfigError::InvalidPattern => "invalid regular expression",
        }
    }
}

/// What to search for, where, and how.
#[derive(Debug)]
pub struct Config {
    /// The text or pattern searched for.
    pub query: String,
    /// The file whose lines are searched.
    pub file_path: String,
    /// Compare without regard to case.
    pub ignore_case: bool,
    /// Treat the query as a regular expression; takes precedence over
    /// `ignore_case`.
    pub re: bool,
}

impl Config {
    /// Builds a configuration from the positional arguments (the query, then
    /// the file path; further arguments are ignored) and the two mode flags.
    pub fn build(args: &[String], ignore_case: bool, re: bool) -> (r: Result<Config, ConfigError>)
        ensures
            args@.len() == 0 ==> r == Err::<Config, ConfigError>(ConfigError::MissingQuery),
            args@.len() == 1 ==> r == Err::<Config, ConfigError>(ConfigError::MissingFilePath),
            args@.len() >= 2 ==> (r matches Ok(c) && c.query@ == args@[0]@ && c.file_path@
                == args@[1]@ && c.ignore_case == ignore_case && c.re == re),
    {
        if args.len() == 0 {
            return Err(ConfigError::MissingQuery);
        }
        let query = args[0].clone();
        if args.len() == 1 {
            return Err(ConfigError::MissingFilePath);
        }
        let file_path = args[1].clone();
        Ok(Config { query, file_path, ignore_case, re })
    }
}

} // verus!
