use minigrep::{Config, ConfigError};

fn strings(items: &[&str]) -> Vec<String> {
    items.iter().map(|item| item.to_string()).collect()
}

#[test]
fn build_takes_query_then_path() {
    let args = strings(&["needle", "haystack.txt"]);
    let config = Config::build(&args, false).unwrap();
    assert_eq!(config.query, "needle");
    assert_eq!(config.file_path, "haystack.txt");
    assert!(!config.ignore_case);
}

#[test]
fn build_passes_the_case_mode_on() {
    let args = strings(&["needle", "haystack.txt"]);
    assert!(Config::build(&args, true).unwrap().ignore_case);
    assert!(!Config::build(&args, false).unwrap().ignore_case);
}

#[test]
fn build_fails_without_arguments() {
    let args: Vec<String> = Vec::new();
    assert_eq!(Config::build(&args, false), Err(ConfigError::InsufficientArguments));
    assert_eq!(Config::build(&args, true), Err(ConfigError::InsufficientArguments));
}

#[test]
fn build_fails_with_one_argument() {
    let args = strings(&["prog"]);
    assert_eq!(Config::build(&args, false), Err(ConfigError::InsufficientArguments));
    assert_eq!(Config::build(&args, true), Err(ConfigError::InsufficientArguments));
}

#[test]
fn build_ignores_further_arguments() {
    let args = strings(&["needle", "haystack.txt", "extra", "more"]);
    let expected = Config {
        query: String::from("needle"),
        file_path: String::from("haystack.txt"),
        ignore_case: true,
    };
    assert_eq!(Config::build(&args, true), Ok(expected));
}

#[test]
fn build_accepts_empty_strings() {
    let args = strings(&["", ""]);
    let config = Config::build(&args, false).unwrap();
    assert_eq!(config.query, "");
    assert_eq!(config.file_path, "");
}

#[test]
fn build_does_not_look_at_the_file() {
    let args = strings(&["needle", "/no/such/directory/no-such-file.txt"]);
    let config = Config::build(&args, false).unwrap();
    assert_eq!(config.file_path, "/no/such/directory/no-such-file.txt");
}

#[test]
fn build_copies_its_arguments() {
    let mut args = strings(&["needle", "haystack.txt"]);
    let config = Config::build(&args, false).unwrap();
    args[0].push_str(" changed");
    args.clear();
    assert_eq!(config.query, "needle");
    assert_eq!(config.file_path, "haystack.txt");
}

#[test]
fn error_message_is_fixed() {
    assert_eq!(ConfigError::InsufficientArguments.message(), "Not enough arguments");
}
