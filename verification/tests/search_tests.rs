use minigrep::search;
use minigrep::search_case_insensitive;

#[test]
fn one_result() {
    let query = "duct";
    let contents = "\
Rust:
safe, fast, productive.
Pick three.
Duct tape.
";

    assert_eq!(vec!["safe, fast, productive."], search(contents, query));
}

#[test]
fn case_insensitive() {
    let query = "ruSt";
    let contents = "\
Rust:
safe, fast, productive.
Pick three.
Trust me.
";

    assert_eq!(
        vec!["Rust:", "Trust me."],
        search_case_insensitive(contents, query)
    );
}

#[test]
fn empty_query_returns_every_line() {
    let contents = "alpha\nbeta\ngamma\n";
    assert_eq!(vec!["alpha", "beta", "gamma"], search(contents, ""));
    assert_eq!(
        vec!["alpha", "beta", "gamma"],
        search_case_insensitive(contents, "")
    );
}

#[test]
fn empty_contents_gives_no_lines() {
    assert!(search("", "x").is_empty());
    assert!(search("", "").is_empty());
    assert!(search_case_insensitive("", "x").is_empty());
}

#[test]
fn order_kept_and_no_dedup() {
    let contents = "echo echo\nquiet\necho\n";
    assert_eq!(vec!["echo echo", "echo"], search(contents, "echo"));
}

#[test]
fn case_sensitive_misses_differing_case() {
    let empty: Vec<&str> = Vec::new();
    assert_eq!(empty, search("Rust:\n", "rust"));
}

#[test]
fn insensitive_finds_all_sensitive_matches() {
    let contents = "Rust:\nsafe, fast, productive.\nPick three.\nTrust me.\n";
    let sensitive = search(contents, "Rust");
    let insensitive = search_case_insensitive(contents, "Rust");
    assert_eq!(vec!["Rust:"], sensitive);
    assert_eq!(vec!["Rust:", "Trust me."], insensitive);
    for line in sensitive {
        assert!(insensitive.contains(&line));
    }
}

#[test]
fn crlf_line_breaks() {
    let contents = "one\r\ntwo\r\nthree";
    assert_eq!(vec!["one", "two", "three"], search(contents, ""));
    assert_eq!(vec!["two"], search(contents, "wo"));
}

#[test]
fn no_trailing_newline_keeps_last_line() {
    assert_eq!(vec!["abc"], search("abc", "b"));
}

#[test]
fn search_is_deterministic() {
    let contents = "a\nb\na\n";
    assert_eq!(search(contents, "a"), search(contents, "a"));
    assert_eq!(
        search_case_insensitive(contents, "A"),
        search_case_insensitive(contents, "A")
    );
}

#[test]
fn query_spanning_lines_never_matches() {
    let empty: Vec<&str> = Vec::new();
    assert_eq!(empty, search("ab\ncd\n", "b\nc"));
}

#[test]
fn returned_lines_are_original_text() {
    let contents = "MiXeD CaSe\nplain\n";
    assert_eq!(vec!["MiXeD CaSe"], search_case_insensitive(contents, "mixed"));
}

#[test]
fn insensitive_folds_beyond_ascii() {
    let contents = "émigré\nplain\n";
    assert_eq!(vec!["émigré"], search_case_insensitive(contents, "ÉMIGRÉ"));
    let empty: Vec<&str> = Vec::new();
    assert_eq!(empty, search(contents, "ÉMIGRÉ"));
}

#[test]
fn query_case_is_irrelevant_to_insensitive_search() {
    let contents = "Crème brûlée\nplain\nBrûlée again\n";
    assert_eq!(
        search_case_insensitive(contents, "BRÛLÉE"),
        search_case_insensitive(contents, "brûlée")
    );
    assert_eq!(
        vec!["Crème brûlée", "Brûlée again"],
        search_case_insensitive(contents, "BRÛLÉE")
    );
}
