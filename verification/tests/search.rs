use lilgrep::{run_search, search_case_insensitive, search_case_sensitive, Config};

#[test]
fn should_work() {
    let query = "duct";
    let contents = "\n
Rust:
safe, fast, productive.
Pick three.";

    assert_eq!(vec!["safe, fast, productive."], search_case_sensitive(query, contents));
}

#[test]
fn should_not_work() {
    let query = "asdfvbg";
    let contents = "\n
Rust:
safe, fast, productive.
Pick three.";

    assert_ne!(vec!["safe, fast, productive."], search_case_sensitive(query, contents));
}

#[test]
fn case_sensitive() {
    let query = "duct";
    let contents = "\
Rust:
safe, fast, productive.
Pick three.
Duct tape.";

    assert_eq!(vec!["safe, fast, productive."], search_case_sensitive(query, contents));
}

#[test]
fn case_insensitive() {
    let query = "rUsT";
    let contents = "\
Rust:
safe, fast, productive.
Pick three.
Trust me.";

    assert_eq!(
        vec!["Rust:", "Trust me."],
        search_case_insensitive(query, contents)
    );
}

#[test]
fn absent_query_returns_empty() {
    let query = "zebra";
    let contents = "Rust:\nsafe, fast, productive.\nPick three.";
    assert_eq!(0, search_case_sensitive(query, contents).len());
    assert_eq!(0, search_case_insensitive(query, contents).len());
}

#[test]
fn empty_query_matches_every_line() {
    let contents = "Rust:\nsafe, fast, productive.\nPick three.";
    assert_eq!(
        vec!["Rust:", "safe, fast, productive.", "Pick three."],
        search_case_sensitive("", contents)
    );
    assert_eq!(
        vec!["Rust:", "safe, fast, productive.", "Pick three."],
        search_case_insensitive("", contents)
    );
}

#[test]
fn crlf_terminators_are_stripped() {
    let contents = "ab\r\ncd\nab";
    assert_eq!(vec!["ab", "ab"], search_case_sensitive("ab", contents));
}

#[test]
fn lone_carriage_return_stays_in_line() {
    let contents = "a\rb\nc";
    assert_eq!(vec!["a\rb"], search_case_sensitive("\r", contents));
}

#[test]
fn trailing_newline_adds_no_line() {
    let contents = "duct\nduct\n";
    assert_eq!(vec!["duct", "duct"], search_case_sensitive("duct", contents));
}

#[test]
fn sensitive_matches_also_match_insensitively() {
    let query = "duct";
    let contents = "Rust:\nsafe, fast, productive.\nPick three.\nDuct tape.";
    let sensitive = search_case_sensitive(query, contents);
    let insensitive = search_case_insensitive(query, contents);
    for line in &sensitive {
        assert!(insensitive.contains(line));
    }
}

#[test]
fn run_search_follows_the_case_policy() {
    let contents = "Rust:\nsafe, fast, productive.\nPick three.\nTrust me.";
    let sensitive_config = Config {
        query: "rUsT".to_string(),
        file_path: "poem.txt".to_string(),
        case_sensitive: true,
    };
    let insensitive_config = Config {
        query: "rUsT".to_string(),
        file_path: "poem.txt".to_string(),
        case_sensitive: false,
    };
    assert_eq!(0, run_search(&sensitive_config, contents).len());
    assert_eq!(
        vec!["Rust:", "Trust me."],
        run_search(&insensitive_config, contents)
    );
}
