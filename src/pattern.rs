//! Regular-expression line search, on top of the `regex` crate.
use vstd::prelude::*;

use regex::Regex;

use crate::config::ConfigError;
use crate::text::{lines, lines_of, views_of};

verus! {

#[verifier::external_type_specification]
#[verifier::external_body]
pub struct ExRegex(regex::Regex);

#[verifier::external_type_specification]
#[verifier::external_body]
pub struct ExRegexError(regex::Error);

/// Whether `regex::Regex::new` accepts pattern `p`.
pub uninterp spec fn pattern_compiles(p: Seq<char>) -> bool;

/// Whether the regex compiled from `p` matches somewhere in `hay`.
pub uninterp spec fn pattern_finds(p: Seq<char>, hay: Seq<char>) -> bool;

/// Relies on `regex::Regex::new`: it returns `Ok` exactly when the pattern is
/// valid and its compiled form fits the default size limit, which depends on
/// the pattern alone.
#[verifier::external_body]
fn compile_regex(p: &str) -> (r: Result<Regex, regex::Error>)
    ensures
        r is Ok <==> pattern_compiles(p@),
{
    Regex::new(p)
}

/// A compiled regular expression together with the text it was compiled from.
pub struct Pattern {
    source: String,
    re: Regex,
}

impl View for Pattern {
    type V = Seq<char>;

    closed spec fn view(&self) -> Seq<char> {
        self.source@
    }
}

/// Relies on `regex::Regex::is_match`: true exactly when the regex matches
/// somewhere in `line`. `p.re` was compiled from `p.source`, as
/// `Pattern::new`, the only constructor, ensures.
#[verifier::external_body]
fn regex_is_match(p: &Pattern, line: &str) -> (r: bool)
    ensures
        r == pattern_finds(p@, line@),
{
    p.re.is_match(line)
}

/// Holds of a line in which pattern `p` finds a match.
pub open spec fn holds_match(p: Seq<char>) -> spec_fn(Seq<char>) -> bool {
    |l: Seq<char>| pattern_finds(p, l)
}

/// The lines among `ls` in which pattern `p` finds a match.
pub open spec fn keep_matching(ls: Seq<Seq<char>>, p: Seq<char>) -> Seq<Seq<char>> {
    ls.filter(holds_match(p))
}

/// What regex search returns on a valid pattern: the lines of `c` in which
/// `p` finds a match, in order.
pub open spec fn regex_matches(p: Seq<char>, c: Seq<char>) -> Seq<Seq<char>> {
    keep_matching(lines_of(c), p)
}

impl Pattern {
    /// Compiles `p`; an invalid pattern is `InvalidPattern`.
    pub fn new(p: &str) -> (r: Result<Pattern, ConfigError>)
        ensures
            r is Ok <==> pattern_compiles(p@),
            r matches Ok(pat) ==> pat@ == p@,
            r matches Err(e) ==> e == ConfigError::InvalidPattern,
    {
        match compile_regex(p) {
            Ok(re) => Ok(Pattern { source: p.to_owned(), re }),
            Err(_) => Err(ConfigError::InvalidPattern),
        }
    }

    /// Whether the pattern matches somewhere in `line`.
    pub fn is_match(&self, line: &str) -> (r: bool)
        ensures
            r == pattern_finds(self@, line@),
    {
        regex_is_match(self, line)
    }
}

/// The lines of `contents` in which `pattern` finds a match, in order.
pub fn search_pattern<'a>(pattern: &Pattern, contents: &'a str) -> (r: Vec<&'a str>)
    ensures
        views_of(r@) == regex_matches(pattern@, contents@),
{
    let ls = lines(contents);
    let mut r: Vec<&'a str> = Vec::new();
    let mut i: usize = 0;
    while i < ls.len()
        invariant
            i <= ls@.len(),
            views_of(ls@) == lines_of(contents@),
            views_of(r@) == keep_matching(views_of(ls@).take(i as int), pattern@),
        decreases ls@.len() - i,
    {
        let l = ls[i];
        let ghost before = views_of(ls@).take(i as int);
        assert(views_of(ls@).take(i + 1) =~= before.push(l@));
        proof {
            before.lemma_filter_push(l@, holds_match(pattern@));
        }
        if pattern.is_match(l) {
            assert(views_of(r@.push(l)) =~= views_of(r@).push(l@));
            r.push(l);
        }
        i = i + 1;
    }
    assert(views_of(ls@).take(i as int) =~= views_of(ls@));
    r
}

/// The lines of `contents` in which the regular expression `query` finds a
/// match, in order; `InvalidPattern` when `query` does not compile.
pub fn search_regex<'a>(query: &str, contents: &'a str) -> (r: Result<Vec<&'a str>, ConfigError>)
    ensures
        r is Ok <==> pattern_compiles(query@),
        r matches Ok(v) ==> views_of(v@) == regex_matches(query@, contents@),
        r matches Err(e) ==> e == ConfigError::InvalidPattern,
{
    let pattern = Pattern::new(query)?;
    Ok(search_pattern(&pattern, contents))
}

} // verus!
