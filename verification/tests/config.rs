use minigrep::matching_lines;
use minigrep::Config;

fn args_of(parts: &[&str]) -> Vec<String> {
    let mut v: Vec<String> = Vec::new();
    for p in parts {
        v.push(p.to_string());
    }
    v
}

#[test]
fn missing_query_is_reported() {
    let args = args_of(&["prog"]);
    assert_eq!(Err("Didn't get a query string"), Config::new(&args, false).map(|_| ()));
}

#[test]
fn missing_file_name_is_reported() {
    let args = args_of(&["prog", "needle"]);
    assert_eq!(Err("Didn't get a file name"), Config::new(&args, false).map(|_| ()));
}

#[test]
fn builds_from_positional_arguments() {
    let args = args_of(&["prog", "needle", "hay.txt", "ignored"]);
    let config = Config::new(&args, false).unwrap();
    assert_eq!("needle", config.query);
    assert_eq!("hay.txt", config.filename);
    assert!(config.case_sensitive);
}

#[test]
fn env_presence_disables_case_sensitivity() {
    let args = args_of(&["prog", "needle", "hay.txt"]);
    let config = Config::new(&args, true).unwrap();
    assert!(!config.case_sensitive);
}

#[test]
fn building_twice_gives_equal_records() {
    let args = args_of(&["prog", "needle", "hay.txt"]);
    let first = Config::new(&args, true).unwrap();
    let second = Config::new(&args, true).unwrap();
    assert_eq!(first.query, second.query);
    assert_eq!(first.filename, second.filename);
    assert_eq!(first.case_sensitive, second.case_sensitive);
}

#[test]
fn toggle_changes_matching() {
    let contents = "a Foo line\nanother line";
    let args = args_of(&["prog", "foo", "hay.txt"]);

    let sensitive = Config::new(&args, false).unwrap();
    assert!(matching_lines(&sensitive, contents).is_empty());

    let insensitive = Config::new(&args, true).unwrap();
    assert_eq!(vec!["a Foo line"], matching_lines(&insensitive, contents));
}

#[test]
fn matching_lines_follows_the_settings() {
    let contents = "\
Rust:
safe, fast, productive
Pick three.
Trust me.";
    let args = args_of(&["prog", "rUst", "hay.txt"]);

    let sensitive = Config::new(&args, false).unwrap();
    assert!(matching_lines(&sensitive, contents).is_empty());

    let insensitive = Config::new(&args, true).unwrap();
    assert_eq!(vec!["Rust:", "Trust me."], matching_lines(&insensitive, contents));
}
