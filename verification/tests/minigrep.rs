use delimscan::search::{search, search_case_insensitive, search_with, Config};

#[test]
fn case_sensitive() {
    let query = "duct";

    let contents = "\
Rust:
safe, fast, productive.
Pick three.
Duct tape.";
    assert_eq!(vec!["safe, fast, productive."], search(query, contents));
}

#[test]
fn case_insensitive() {
    let query = "ruST";
    let contents = "\
Rust:
safe, fast, productive.
Pick three.
Trust me.";
    assert_eq!(
        vec!["Rust:", "Trust me."],
        search_case_insensitive(query, contents)
    );
}

#[test]
fn search_no_match() {
    let hits: Vec<&str> = search("zzz", "one\ntwo\nthree");
    assert!(hits.is_empty());
}

#[test]
fn search_with_picks_by_flag() {
    let contents = "Rust:\nTrust me.";
    assert_eq!(vec!["Trust me."], search_with(true, "rust", contents));
    assert_eq!(vec!["Rust:", "Trust me."], search_with(false, "rust", contents));
}

#[test]
fn config_needs_two_arguments() {
    let args = vec![String::from("prog"), String::from("only-query")];
    let err = match Config::new(&args, true) {
        Ok(_) => panic!("two arguments must not do"),
        Err(e) => e,
    };
    assert_eq!("Usage: query filename", err);
}

#[test]
fn config_takes_query_and_filename() {
    let args = vec![
        String::from("prog"),
        String::from("needle"),
        String::from("hay.txt"),
    ];
    let config = Config::new(&args, false).unwrap();
    assert_eq!("needle", config.query);
    assert_eq!("hay.txt", config.filename);
    assert!(!config.case_sensitive);
}
