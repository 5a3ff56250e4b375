use minigrep::{Config, ConfigError};

fn args(items: &[&str]) -> Vec<String> {
    items.iter().map(|s| s.to_string()).collect()
}

#[test]
fn missing_query_is_an_error() {
    let built = Config::build(&args(&["minigrep"]), false);
    assert_eq!(Some(ConfigError::MissingQuery), built.err());
    assert!(Config::build(&args(&[]), true).is_err());
}

#[test]
fn missing_query_message() {
    assert_eq!("Didn't get a query string.", ConfigError::MissingQuery.message());
}

#[test]
fn query_without_path_reads_standard_input() {
    let config = Config::build(&args(&["minigrep", "to"]), false).unwrap();
    assert_eq!("to", config.query);
    assert_eq!(None, config.file_path);
    assert!(!config.ignore_case);
}

#[test]
fn query_and_path() {
    let config = Config::build(&args(&["minigrep", "to", "poem.txt", "extra"]), true).unwrap();
    assert_eq!("to", config.query);
    assert_eq!(Some("poem.txt".to_string()), config.file_path);
    assert!(config.ignore_case);
}

#[test]
fn ignore_case_setting_finds_lower_case_line() {
    let config = Config::build(&args(&["minigrep", "RUST", "notes.txt"]), true).unwrap();
    assert_eq!(vec!["rust rocks"], config.search("rust rocks"));
}

#[test]
fn case_setting_off_matches_exactly() {
    let config = Config::build(&args(&["minigrep", "RUST"]), false).unwrap();
    assert!(config.search("rust rocks").is_empty());
    assert_eq!(vec!["RUST"], config.search("rust rocks\nRUST"));
}
