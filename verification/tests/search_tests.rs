use searcher_txt::scan_lines;
use searcher_txt::search_case_insensitive;
use searcher_txt::search_case_sensitive;
use searcher_txt::string_to_bool;
use searcher_txt::Config;

#[test]
fn case_sensitive() {
    let query = "duct";
    let contents = "\
Rust:
safe, fast, productive.
Pick three.
Duct tape.";

    assert_eq!(
        Ok(vec![String::from("safe, fast, productive.")]),
        search_case_sensitive(query, contents)
    );
}

#[test]
fn case_insensitive() {
    let query = "rUsT";
    let contents = "\
Rust:
safe, fast, productive.
Pick three.
Trust me.";

    assert_eq!(
        Ok(vec![String::from("Rust:"), String::from("Trust me.")]),
        search_case_insensitive(query, contents)
    );
}

#[test]
fn whole_file() {
    let query = "rUsT";
    let contents = "\
Rust:
safe, fast, productive.
Pick three.
Trust me.";

    assert_eq!(
        Ok(vec![String::from("Rust:"), String::from("Trust me.")]),
        search_case_insensitive(query, contents)
    );
}

#[test]
fn str_bool() {
    let tr = "true".to_string();
    let fa = "false".to_string();

    assert_eq!(true, string_to_bool(tr));
    assert_eq!(false, string_to_bool(fa));
    assert_eq!(false, string_to_bool("notABoolean".to_string()));
}

#[test]
fn conf_create() {
    let query = String::from("q");
    let filename = String::from("f");
    let case = string_to_bool("true".to_string());
    let verbose = string_to_bool("false".to_string());
    let whole = string_to_bool("true".to_string());
    let recurse = string_to_bool("false".to_string());

    assert_eq!(
        Ok(Config {
            query,
            filename,
            case,
            verbose,
            whole,
            recurse,
        }),
        Config::new(&[
            String::new(),
            String::from("q"),
            String::from("f"),
            String::from("true"),
            String::from("false"),
            String::from("true"),
            String::from("maybe")
        ])
    );
}

#[test]
fn empty_query_matches_every_line() {
    assert_eq!(
        vec![
            String::from("a"),
            String::from("b"),
            String::from("c")
        ],
        scan_lines("", "a\nb\nc", true)
    );
}

#[test]
fn empty_contents_match_nothing() {
    assert_eq!(Ok(Vec::<String>::new()), search_case_sensitive("anything", ""));
    assert_eq!(Ok(Vec::<String>::new()), search_case_insensitive("anything", ""));
    assert_eq!(Vec::<String>::new(), scan_lines("", "", true));
}

#[test]
fn exact_case_required_in_sensitive_mode() {
    let contents = "Rust:\nsafe, fast, productive.\nPick three.\nTrust me.";
    assert_eq!(Ok(Vec::<String>::new()), search_case_sensitive("rUsT", contents));
    assert_eq!(
        Ok(vec![String::from("Rust:"), String::from("Trust me.")]),
        search_case_sensitive("ust", contents)
    );
}

#[test]
fn line_boundaries() {
    // A trailing separator opens no empty final line; inner empty lines stay.
    assert_eq!(
        vec![String::from("a"), String::from(""), String::from("b")],
        scan_lines("", "a\n\nb\n", true)
    );
    assert_eq!(vec![String::from("")], scan_lines("", "\n", true));
}

#[test]
fn match_reported_once_per_line() {
    assert_eq!(
        vec![String::from("warts and warts")],
        scan_lines("warts", "warts and warts\nnothing here", true)
    );
}
