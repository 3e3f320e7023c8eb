use minigrep::run_search;
use minigrep::Config;
use minigrep::ConfigError;

fn args(list: &[&str]) -> Vec<String> {
    list.iter().map(|s| s.to_string()).collect()
}

#[test]
fn missing_file_path_argument() {
    let a = args(&["prog"]);
    assert_eq!(Err(ConfigError::MissingArgument), Config::build(&a, false).map(|_| ()));
}

#[test]
fn missing_query_argument() {
    let a = args(&["prog", "notes.txt"]);
    assert_eq!(Err(ConfigError::MissingArgument), Config::build(&a, false).map(|_| ()));
}

#[test]
fn flag_in_place_of_file_path() {
    let a = args(&["prog", "-x", "query"]);
    assert_eq!(Err(ConfigError::InvalidArgument), Config::build(&a, false).map(|_| ()));
}

#[test]
fn empty_file_path_rejected() {
    let a = args(&["prog", "", "query"]);
    assert_eq!(Err(ConfigError::InvalidArgument), Config::build(&a, false).map(|_| ()));
}

#[test]
fn missing_query_reported_before_flag_check() {
    let a = args(&["prog", "-x"]);
    assert_eq!(Err(ConfigError::MissingArgument), Config::build(&a, false).map(|_| ()));
}

#[test]
fn fields_taken_from_arguments() {
    let a = args(&["prog", "file.txt", "Query"]);
    let c = Config::build(&a, false).ok().unwrap();
    assert_eq!("file.txt", c.file_path);
    assert_eq!("Query", c.query);
    assert!(!c.ignore_case);
}

#[test]
fn trailing_flag_enables_ignore_case() {
    let a = args(&["prog", "file.txt", "Query", "-c"]);
    let c = Config::build(&a, false).ok().unwrap();
    assert!(c.ignore_case);
}

#[test]
fn environment_enables_ignore_case() {
    let a = args(&["prog", "file.txt", "Query"]);
    let c = Config::build(&a, true).ok().unwrap();
    assert!(c.ignore_case);
}

#[test]
fn trailing_argument_cannot_disable_ignore_case() {
    let a = args(&["prog", "file.txt", "Query", "verbose"]);
    let c = Config::build(&a, true).ok().unwrap();
    assert!(c.ignore_case);
}

#[test]
fn flag_detected_as_substring() {
    let a = args(&["prog", "file.txt", "Query", "abc-cde"]);
    let c = Config::build(&a, false).ok().unwrap();
    assert!(c.ignore_case);
}

#[test]
fn only_first_trailing_argument_is_checked() {
    let a = args(&["prog", "file.txt", "Query", "extra", "-c"]);
    let c = Config::build(&a, false).ok().unwrap();
    assert!(!c.ignore_case);
}

#[test]
fn run_search_dispatches_on_case_sensitivity() {
    let contents = "Rust:\nTrust me.\n";
    let sensitive = Config {
        file_path: String::from("file.txt"),
        query: String::from("rust"),
        ignore_case: false,
    };
    let insensitive = Config {
        file_path: String::from("file.txt"),
        query: String::from("rust"),
        ignore_case: true,
    };
    assert_eq!(vec!["Trust me."], run_search(contents, &sensitive));
    assert_eq!(vec!["Rust:", "Trust me."], run_search(contents, &insensitive));
}
