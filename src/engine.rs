//! Choosing the matching strategy from a configuration.
use vstd::prelude::*;

use crate::config::{Config, ConfigError};
use crate::pattern::{pattern_compiles, regex_matches, search_regex};
use crate::search::{folded_matches, literal_matches, search, search_case_insensitive};
use crate::text::{lines_of, views_of};

verus! {

/// The outcome of a search for `query` over content `c`: regex mode when `re`
/// is set, whatever `ignore_case` says; otherwise case-insensitive mode when
/// `ignore_case` is set; otherwise literal mode.
pub open spec fn search_outcome(query: Seq<char>, ignore_case: bool, re: bool, c: Seq<char>) -> Result<
    Seq<Seq<char>>,
    ConfigError,
> {
    if re {
        if pattern_compiles(query) {
            Ok(regex_matches(query, c))
        } else {
            Err(ConfigError::InvalidPattern)
        }
    } else if ignore_case {
        Ok(folded_matches(query, c))
    } else {
        Ok(literal_matches(query, c))
    }
}

/// Runs the strategy that `config` selects over `contents` and returns the
/// matching lines in order; only regex mode can fail, on an invalid pattern.
pub fn search_with_config<'a>(config: &Config, contents: &'a str) -> (r: Result<
    Vec<&'a str>,
    ConfigError,
>)
    ensures
        match r {
            Ok(v) => search_outcome(config.query@, config.ignore_case, config.re, contents@) == Ok::<
                Seq<Seq<char>>,
                ConfigError,
            >(views_of(v@)),
            Err(e) => search_outcome(config.query@, config.ignore_case, config.re, contents@)
                == Err::<Seq<Seq<char>>, ConfigError>(e),
        },
        !config.re && config.query@.len() == 0 ==> (r matches Ok(v) && views_of(v@) == lines_of(
            contents@,
        )),
{
    if config.re {
        search_regex(config.query.as_str(), contents)
    } else if config.ignore_case {
        Ok(search_case_insensitive(config.query.as_str(), contents))
    } else {
        Ok(search(config.query.as_str(), contents))
    }
}

/// With neither flag set, a configured search is literal search.
pub proof fn lemma_default_mode_is_literal(query: Seq<char>, c: Seq<char>)
    ensures
        search_outcome(query, false, false, c) == Ok::<Seq<Seq<char>>, ConfigError>(
            literal_matches(query, c),
        ),
{
}

/// When regex mode is on, the case-insensitive flag changes nothing: the
/// regex strategy alone decides the outcome.
pub proof fn lemma_regex_takes_precedence(query: Seq<char>, c: Seq<char>)
    ensures
        search_outcome(query, true, true, c) == search_outcome(query, false, true, c),
        search_outcome(query, true, true, c) == (if pattern_compiles(query) {
            Ok::<Seq<Seq<char>>, ConfigError>(regex_matches(query, c))
        } else {
            Err(ConfigError::InvalidPattern)
        }),
{
}

} // verus!
