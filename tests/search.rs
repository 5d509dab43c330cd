use minigrep::{
    contains_str, lines, search, search_case_insensitive, search_pattern, search_regex,
    search_with_config, Config, ConfigError, Pattern,
};

#[test]
fn case_sensitive() {
    let query = "duct";
    let contents = "\
Rust:
safe, fast, productive.
Pick three.
Duct tape.";

    assert_eq!(vec!["safe, fast, productive."], search(query, contents));
}

#[test]
fn case_insensitive() {
    let query = "rUsT";
    let contents = "\
Rust:
safe, fast, productive.
Pick three.
Trust me.";

    assert_eq!(
        vec!["Rust:", "Trust me."],
        search_case_insensitive(query, contents)
    );
}

#[test]
fn regex_search() {
    let query = r"\b\d{3}\b";
    let contents = "\
1234
567
89
0";
    assert_eq!(Ok(vec!["567"]), search_regex(&query, &contents));
}

#[test]
fn empty_query_keeps_every_line() {
    let contents = "one\n\nTwo\nthree\n";
    assert_eq!(vec!["one", "", "Two", "three"], search("", contents));
    assert_eq!(
        vec!["one", "", "Two", "three"],
        search_case_insensitive("", contents)
    );
}

#[test]
fn empty_content_has_no_matches() {
    assert_eq!(Vec::<&str>::new(), search("", ""));
    assert_eq!(Vec::<&str>::new(), search_case_insensitive("a", ""));
    assert_eq!(Ok(Vec::<&str>::new()), search_regex("a", ""));
}

#[test]
fn case_fold_is_symmetric() {
    assert_eq!(vec!["rust is great"], search_case_insensitive("RUST", "rust is great"));
    assert_eq!(vec!["RUST IS GREAT"], search_case_insensitive("rust", "RUST IS GREAT"));
}

#[test]
fn case_fold_covers_non_ascii() {
    assert_eq!(vec!["une école"], search_case_insensitive("ÉCOLE", "une école\nun lycée"));
    assert_eq!(Vec::<&str>::new(), search("ÉCOLE", "une école\nun lycée"));
}

#[test]
fn invalid_pattern_is_an_error() {
    assert_eq!(Err(ConfigError::InvalidPattern), search_regex("(", "a\n(b"));
    assert!(matches!(Pattern::new("a(b"), Err(ConfigError::InvalidPattern)));
}

#[test]
fn regex_matches_anywhere_in_line() {
    assert_eq!(Ok(vec!["xx abc yy", "abc"]), search_regex("ab+c", "xx abc yy\nac\nabc"));
    assert_eq!(Ok(vec!["abc"]), search_regex("^abc$", "xx abc yy\nac\nabc"));
}

#[test]
fn pattern_is_compiled_once_and_reused() {
    let p = Pattern::new(r"\d").unwrap();
    assert!(p.is_match("a1"));
    assert!(!p.is_match("ab"));
    assert_eq!(vec!["1", "x2"], search_pattern(&p, "1\ny\nx2"));
}

#[test]
fn a_line_matching_twice_appears_once() {
    assert_eq!(vec!["abab", "ab"], search("ab", "abab\nba\nab"));
}

#[test]
fn lines_follow_the_line_break_rules() {
    assert_eq!(vec!["a", "b"], lines("a\r\nb\n"));
    assert_eq!(vec!["", ""], lines("\n\n"));
    assert_eq!(vec!["a\r"], lines("a\r"));
    assert_eq!(vec!["x", "", "y"], lines("x\n\ny"));
    assert_eq!(Vec::<&str>::new(), lines(""));
}

#[test]
fn returned_lines_drop_the_carriage_return() {
    assert_eq!(vec!["one", "two"], search("o", "one\r\ntwo\r\n"));
}

#[test]
fn substring_containment() {
    assert!(contains_str("productive", "duct"));
    assert!(contains_str("abc", ""));
    assert!(contains_str("", ""));
    assert!(!contains_str("", "a"));
    assert!(!contains_str("Duct tape.", "duct"));
    assert!(contains_str("aab", "ab"));
    assert!(!contains_str("ab", "abc"));
}

fn args(v: &[&str]) -> Vec<String> {
    v.iter().map(|s| s.to_string()).collect()
}

#[test]
fn build_without_file_path() {
    let r = Config::build(&args(&["needle"]), false, false);
    assert_eq!(ConfigError::MissingFilePath, r.unwrap_err());
}

#[test]
fn build_without_query() {
    let r = Config::build(&args(&[]), true, true);
    assert_eq!(ConfigError::MissingQuery, r.unwrap_err());
}

#[test]
fn build_takes_first_two_arguments_and_flags() {
    let c = Config::build(&args(&["needle", "poem.txt", "extra"]), true, false).unwrap();
    assert_eq!("needle", c.query);
    assert_eq!("poem.txt", c.file_path);
    assert!(c.ignore_case);
    assert!(!c.re);
}

fn config(query: &str, ignore_case: bool, re: bool) -> Config {
    Config::build(&args(&[query, "f.txt"]), ignore_case, re).unwrap()
}

#[test]
fn regex_mode_takes_precedence() {
    let contents = "Rust\nrust\nr.st";
    assert_eq!(Ok(vec!["Rust"]), search_with_config(&config("R.st", true, true), contents));
    assert_eq!(Ok(vec!["r.st"]), search_with_config(&config("R.st", true, false), contents));
    assert_eq!(
        Err(ConfigError::InvalidPattern),
        search_with_config(&config("(", true, true), contents)
    );
}

#[test]
fn default_mode_is_literal() {
    let contents = "Rust:\nsafe, fast, productive.\nPick three.\nDuct tape.";
    assert_eq!(
        Ok(search("duct", contents)),
        search_with_config(&config("duct", false, false), contents)
    );
    assert_eq!(
        Ok(search_case_insensitive("duct", contents)),
        search_with_config(&config("duct", true, false), contents)
    );
    assert_eq!(Ok(vec!["Duct tape."]), search_with_config(&config("D.ct", false, true), contents));
}

#[test]
fn error_messages() {
    assert_eq!("missing query", ConfigError::MissingQuery.message());
    assert_eq!("missing file path", ConfigError::MissingFilePath.message());
    assert_eq!("invalid regular expression", ConfigError::InvalidPattern.message());
}

#[test]
fn lines_of_multibyte_text() {
    let contents = "héllo\r\nwörld\n日本語\n€ 5";
    assert_eq!(vec!["héllo", "wörld", "日本語", "€ 5"], lines(contents));
    assert_eq!(vec!["wörld"], search("ö", contents));
    assert_eq!(vec!["日本語"], search("本", contents));
    assert_eq!(vec!["HÉLLO"], search_case_insensitive("héllo", "x\nHÉLLO\r\n"));
}
