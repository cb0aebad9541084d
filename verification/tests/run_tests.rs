use minigrep::replace_if_not_empty;
use minigrep::run;
use minigrep::search_based_on_case;
use minigrep::Config;

fn config(query: &str, ignore_case: bool, line_number: bool, replace: &str) -> Config {
    Config {
        query: query.to_string(),
        file_path: "notes.txt".to_string(),
        ignore_case,
        case_sensitive: !ignore_case,
        line_number,
        replace: replace.to_string(),
    }
}

#[test]
fn plain_run_emits_matched_lines() {
    let contents = "Rust:\nsafe, fast, productive.\nPick three.";
    let out = run(&config("duct", false, false, ""), contents);
    assert_eq!(vec!["safe, fast, productive."], out);
}

#[test]
fn run_respects_case_policy() {
    let contents = "Rust:\nsafe, fast, productive.\nPick three.\nTrust me.";
    let sensitive = run(&config("rUsT", false, false, ""), contents);
    assert_eq!(Vec::<String>::new(), sensitive);
    let insensitive = run(&config("rUsT", true, false, ""), contents);
    assert_eq!(vec!["Rust:", "Trust me."], insensitive);
}

#[test]
fn replacement_uses_original_case_query() {
    let contents = "Rust:\nsafe, fast, productive.\nPick three.";
    let out = run(&config("duct", false, false, "DUCT"), contents);
    assert_eq!(vec!["safe, fast, proDUCTive."], out);
}

#[test]
fn replacement_after_insensitive_match_is_case_sensitive() {
    let contents = "Duct tape.\nproductive work";
    let out = run(&config("duct", true, false, "DUCT"), contents);
    assert_eq!(vec!["Duct tape.", "proDUCTive work"], out);
}

#[test]
fn numbering_counts_matches_not_file_lines() {
    let contents = "miss\nhit one\nmiss\nhit two";
    let out = run(&config("hit", false, true, ""), contents);
    assert_eq!(vec!["1: hit one", "2: hit two"], out);
}

#[test]
fn numbering_and_replacement_combine() {
    let contents = "aa\nbb\nab";
    let out = run(&config("a", false, true, "_"), contents);
    assert_eq!(vec!["1: __", "2: _b"], out);
}

#[test]
fn numbering_reaches_two_digits() {
    let contents = "x\nx\nx\nx\nx\nx\nx\nx\nx\nx\nx\nx";
    let out = run(&config("x", false, true, ""), contents);
    assert_eq!(12, out.len());
    assert_eq!("1: x", out[0]);
    assert_eq!("10: x", out[9]);
    assert_eq!("12: x", out[11]);
}

#[test]
fn search_based_on_case_follows_the_flag() {
    let contents = "Rust:\nTrust me.";
    assert_eq!(
        vec!["Trust me."],
        search_based_on_case(&config("rust", false, false, ""), contents)
    );
    assert_eq!(
        vec!["Rust:", "Trust me."],
        search_based_on_case(&config("rust", true, false, ""), contents)
    );
}

#[test]
fn replace_if_not_empty_keeps_line_without_replacement() {
    let line = replace_if_not_empty(&config("duct", false, false, ""), "productive");
    assert_eq!("productive", line);
}

#[test]
fn replace_if_not_empty_rewrites_with_replacement() {
    let line = replace_if_not_empty(&config("duct", false, false, "DUCT"), "productive");
    assert_eq!("proDUCTive", line);
}
