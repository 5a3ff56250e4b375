use minigrep::{search, search_case_insensitive, select_matching};

#[test]
fn case_sensitive_one() {
    let query = "duct";
    let contents = "\
Rust:
safe, fast, productive.
Pick three.";

    assert_eq!(vec!["safe, fast, productive."], search(query, contents));
}

#[test]
fn case_sensitive_many() {
    let query = "body";
    let contents = "\
nobody
frog
somebody
body
adult
";

    assert_eq!(vec!["nobody", "somebody", "body"], search(query, contents));
}

#[test]
fn case_insensitive_one() {
    let query = "rUsT";
    let contents = "\
Rust:
safe, fast, productive.
Pick three.
Trust me.";

    assert_eq!(
        vec!["Rust:", "Trust me."],
        search_case_insensitive(query, contents)
    );
}

#[test]
fn no_match_is_empty() {
    let found: Vec<&str> = search("xyz", "a\nb\nc");
    assert!(found.is_empty());
}

#[test]
fn empty_query_returns_every_line() {
    let contents = "one\n\ntwo\r\nthree";
    assert_eq!(vec!["one", "", "two", "three"], search("", contents));
}

#[test]
fn empty_contents_has_no_lines() {
    assert!(search("", "").is_empty());
    assert!(search_case_insensitive("", "").is_empty());
}

#[test]
fn trailing_newline_opens_no_line() {
    assert_eq!(vec!["a", "b"], search("", "a\nb\n"));
}

#[test]
fn carriage_return_is_stripped_before_newline() {
    assert_eq!(vec!["x1", "x2"], search("x", "x1\r\nx2\r\n"));
    assert_eq!(vec!["x3\r"], search("x", "x3\r"));
}

#[test]
fn case_sensitive_ignores_other_case() {
    assert_eq!(vec!["rust"], search("rust", "Rust\nrust\nRUST"));
}

#[test]
fn case_insensitive_keeps_original_casing() {
    let contents = "RUST rocks\nnothing\nRuSt";
    let found = search_case_insensitive("rust", contents);
    assert_eq!(vec!["RUST rocks", "RuSt"], found);
}

#[test]
fn case_insensitive_upper_query() {
    assert_eq!(vec!["rust rocks"], search_case_insensitive("RUST", "rust rocks"));
}

#[test]
fn order_of_the_text_is_kept() {
    let contents = "b1\na\nb2\nb3\nc";
    assert_eq!(vec!["b1", "b2", "b3"], search("b", contents));
    assert_eq!(vec!["b1", "b2", "b3"], search_case_insensitive("B", contents));
}

#[test]
fn repeated_search_gives_same_lines() {
    let contents = "Rust:\nsafe, fast, productive.\nPick three.\nTrust me.";
    assert_eq!(search("t", contents), search("t", contents));
    assert_eq!(
        search_case_insensitive("T", contents),
        search_case_insensitive("T", contents)
    );
}

#[test]
fn every_returned_line_holds_the_query() {
    let contents = "alpha\nbeta\ngamma\ndelta";
    let found = search("ta", contents);
    assert_eq!(vec!["beta", "delta"], found);
    for line in contents.lines() {
        assert_eq!(found.contains(&line), line.contains("ta"));
    }
}

#[test]
fn select_by_keys() {
    let lines = vec!["Alpha", "Beta", "Gamma"];
    let keys = vec!["alpha", "beta", "gamma"];
    assert_eq!(vec!["Alpha", "Beta", "Gamma"], select_matching(&lines, &keys, "a"));
    assert_eq!(vec!["Alpha"], select_matching(&lines, &keys, "ph"));
    assert_eq!(vec!["Gamma"], select_matching(&lines, &keys, "mm"));
    assert!(select_matching(&lines, &keys, "A").is_empty());
}
