use minigrep::search;
use minigrep::search_case_insensitive;

#[test]
fn case_sensitive() {
    let query = "duct";
    let contents = "\
Rust:
safe, fast, productive
Pick three.
Duct tape.";

    assert_eq!(vec!["safe, fast, productive"], search(query, contents));
}

#[test]
fn case_insensitive() {
    let query = "rUst";
    let contents = "\
Rust:
safe, fast, productive
Pick three.
Trust me.";

    assert_eq!(vec!["Rust:", "Trust me."], search_case_insensitive(query, contents));
}

#[test]
fn no_match_is_empty() {
    let contents = "\
Rust:
safe, fast, productive
Pick three.";

    assert!(search("zzz", contents).is_empty());
    assert!(search_case_insensitive("zzz", contents).is_empty());
}

#[test]
fn empty_query_matches_every_line() {
    assert_eq!(vec!["alpha", "beta"], search("", "alpha\nbeta"));
}

#[test]
fn empty_contents_yield_nothing() {
    assert!(search("x", "").is_empty());
    assert!(search("", "").is_empty());
}

#[test]
fn final_terminator_is_optional() {
    assert_eq!(vec!["alpha"], search("", "alpha\n"));
    assert_eq!(vec!["alpha", ""], search("", "alpha\n\n"));
}

#[test]
fn carriage_return_before_newline_is_stripped() {
    assert_eq!(vec!["Duct tape."], search("tape", "Duct tape.\r\nglue"));
    assert!(search("tape.\r", "Duct tape.\r\nglue").is_empty());
}

#[test]
fn trailing_carriage_return_without_newline_is_kept() {
    assert_eq!(vec!["b\r"], search("b", "b\r"));
}

#[test]
fn duplicate_lines_are_kept_in_order() {
    assert_eq!(vec!["xy", "xyz", "xy"], search("xy", "xy\nab\nxyz\nxy"));
}

#[test]
fn lowercasing_folds_ascii_letters() {
    assert_eq!(vec!["xABCx"], search_case_insensitive("abc", "xABCx\nnope"));
    assert_eq!(vec!["mixed CaSe"], search_case_insensitive("CASE", "mixed CaSe"));
}

#[test]
fn sensitive_matches_are_found_insensitively() {
    let query = "rUst";
    let contents = "\
Rust:
safe, fast, productive
Pick three.
Trust me.
rUst itself.";

    let sensitive = search(query, contents);
    let insensitive = search_case_insensitive(query, contents);
    for line in sensitive {
        assert!(insensitive.contains(&line));
    }
}

#[test]
fn sensitive_search_distinguishes_case() {
    assert!(search("foo", "Foo").is_empty());
    assert_eq!(vec!["Foo"], search_case_insensitive("foo", "Foo"));
}
