use minigrep::replace;
use minigrep::search;
use minigrep::search_case_insensitive;

#[test]
fn one_result() {
    let query = "duct";
    let contents = "\
Rust:
safe, fast, productive.
Pick three.";

    assert_eq!(vec!["safe, fast, productive."], search(query, contents));
}

#[test]
fn case_sensitive() {
    let query = "duct";
    let contents = "\
Rust:
safe, fast, productive.
Pick three.
Duct tape.";

    assert_eq!(vec!["safe, fast, productive."], search(query, contents));
}

#[test]
fn case_insensitive() {
    let query = "rUsT";
    let contents = "\
Rust:
safe, fast, productive.
Pick three.
Trust me.";

    assert_eq!(
        vec!["Rust:", "Trust me."],
        search_case_insensitive(query, contents)
    );
}

#[test]
fn no_match_gives_nothing() {
    let contents = "Rust:\nsafe, fast, productive.\nPick three.";
    assert_eq!(Vec::<&str>::new(), search("zzz", contents));
}

#[test]
fn matches_keep_file_order() {
    let contents = "alpha\nbeta\ngamma\nalabama";
    assert_eq!(vec!["alpha", "alabama"], search("al", contents));
}

#[test]
fn empty_query_matches_every_line() {
    let contents = "one\ntwo\nthree";
    assert_eq!(vec!["one", "two", "three"], search("", contents));
}

#[test]
fn trailing_newline_gives_no_empty_line() {
    assert_eq!(vec!["one", "two"], search("", "one\ntwo\n"));
}

#[test]
fn crlf_endings_leave_no_carriage_return() {
    assert_eq!(vec!["one", "two"], search("", "one\r\ntwo\r\n"));
}

#[test]
fn bare_carriage_return_is_kept() {
    assert_eq!(vec!["one\rtwo", "three"], search("", "one\rtwo\nthree"));
}

#[test]
fn empty_contents_give_nothing() {
    assert_eq!(Vec::<&str>::new(), search("x", ""));
    assert_eq!(Vec::<&str>::new(), search("", ""));
}

#[test]
fn insensitive_fold_is_not_ascii_only() {
    let contents = "МОЙ ПОИСК\nничего";
    assert_eq!(vec!["МОЙ ПОИСК"], search_case_insensitive("пОиСк", contents));
}

#[test]
fn replace_rewrites_each_occurrence_leftmost_first() {
    assert_eq!("bb", replace("aa", "b", "aaaa"));
    assert_eq!("Xba", replace("aba", "X", "ababa"));
    assert_eq!("proDUCTive", replace("duct", "DUCT", "productive"));
}

#[test]
fn replace_with_empty_query_changes_nothing() {
    assert_eq!("abc", replace("", "X", "abc"));
}

#[test]
fn replace_without_occurrence_changes_nothing() {
    assert_eq!("abc", replace("zz", "X", "abc"));
}
