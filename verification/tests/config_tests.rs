use minigrep::Config;

fn args(list: &[&str]) -> Vec<String> {
    list.iter().map(|a| a.to_string()).collect()
}

#[test]
fn missing_query_is_reported() {
    let result = Config::build(args(&["prog"]), None);
    assert_eq!(Err("Didn't get a query string"), result.map(|_| ()));
}

#[test]
fn missing_file_path_is_reported() {
    let result = Config::build(args(&["prog", "needle"]), None);
    assert_eq!(Err("Didn't get a file path"), result.map(|_| ()));
}

#[test]
fn empty_query_counts_as_missing() {
    let result = Config::build(args(&["prog", "", "notes.txt"]), None);
    assert_eq!(Err("Didn't get a query string"), result.map(|_| ()));
}

#[test]
fn empty_file_path_counts_as_missing() {
    let result = Config::build(args(&["prog", "needle", ""]), None);
    assert_eq!(Err("Didn't get a file path"), result.map(|_| ()));
}

#[test]
fn positional_arguments_are_taken_in_order() {
    let config = Config::build(args(&["prog", "needle", "notes.txt"]), None).unwrap();
    assert_eq!("needle", config.query);
    assert_eq!("notes.txt", config.file_path);
    assert!(!config.case_sensitive);
    assert!(!config.ignore_case);
    assert!(!config.line_number);
    assert_eq!("", config.replace);
}

#[test]
fn short_flags_are_recognized() {
    let config = Config::build(args(&["prog", "q", "f", "-s", "-n"]), None).unwrap();
    assert!(config.case_sensitive);
    assert!(config.line_number);
    assert!(!config.ignore_case);
}

#[test]
fn long_flags_are_recognized() {
    let config = Config::build(
        args(&["prog", "q", "f", "--ignore-case", "--line-number"]),
        None,
    )
    .unwrap();
    assert!(config.ignore_case);
    assert!(config.line_number);
    assert!(!config.case_sensitive);
}

#[test]
fn ignore_case_flag_sets_ignore_case() {
    let config = Config::build(args(&["prog", "q", "f", "-i"]), None).unwrap();
    assert!(config.ignore_case);
}

#[test]
fn case_sensitive_flag_wins_over_ignore_case_flag() {
    let config = Config::build(args(&["prog", "q", "f", "-i", "-s"]), None).unwrap();
    assert!(config.case_sensitive);
    assert!(!config.ignore_case);
}

#[test]
fn case_sensitive_flag_wins_over_environment() {
    let config = Config::build(
        args(&["prog", "q", "f", "--case-sensitive", "-i"]),
        Some("1".to_string()),
    )
    .unwrap();
    assert!(config.case_sensitive);
    assert!(!config.ignore_case);
}

#[test]
fn environment_one_forces_ignore_case_without_flag() {
    let config = Config::build(args(&["prog", "q", "f"]), Some("1".to_string())).unwrap();
    assert!(config.ignore_case);
}

#[test]
fn environment_other_than_one_overrides_flags() {
    let config = Config::build(args(&["prog", "q", "f", "-i"]), Some("0".to_string())).unwrap();
    assert!(!config.ignore_case);
}

#[test]
fn replace_takes_the_following_argument() {
    let config = Config::build(args(&["prog", "q", "f", "-r", "XY"]), None).unwrap();
    assert_eq!("XY", config.replace);
}

#[test]
fn replace_long_form_takes_the_following_argument() {
    let config = Config::build(args(&["prog", "q", "f", "--replace", "XY"]), None).unwrap();
    assert_eq!("XY", config.replace);
}

#[test]
fn replace_flag_without_value_means_no_replacement() {
    let config = Config::build(args(&["prog", "q", "f", "-n", "-r"]), None).unwrap();
    assert_eq!("", config.replace);
}

#[test]
fn first_replace_flag_wins() {
    let config = Config::build(args(&["prog", "q", "f", "-r", "a", "-r", "b"]), None).unwrap();
    assert_eq!("a", config.replace);
}
