use searcher_txt::plan_search;
use searcher_txt::search_entries_tagged;
use searcher_txt::plan_walk;
use searcher_txt::search_entries;
use searcher_txt::FileEntry;
use searcher_txt::SearchError;

fn fixture_entries() -> Vec<FileEntry> {
    vec![
        FileEntry {
            path: String::from("fixtures/a.txt"),
            contents: Ok(String::from("stalwarts\nnothing here")),
        },
        FileEntry {
            path: String::from("fixtures/b.txt"),
            contents: Ok(String::from("thwarts\nwarts")),
        },
        FileEntry {
            path: String::from("fixtures/c.txt"),
            contents: Ok(String::from("plain text")),
        },
    ]
}

#[test]
fn not_a_directory_before_walk() {
    let path = String::from("testFiles/file.txt");
    assert_eq!(
        Err(SearchError::NotADirectory {
            path: String::from("testFiles/file.txt")
        }),
        plan_walk(&path, false)
    );
}

#[test]
fn missing_root_is_not_a_directory() {
    let path = String::from("no_such_directory_anywhere/nested");
    assert_eq!(
        Err(SearchError::NotADirectory {
            path: String::from("no_such_directory_anywhere/nested")
        }),
        plan_search(&path)
    );
}

#[test]
fn walking_a_directory_succeeds() {
    let here = String::from(".");
    let walked = plan_search(&here);
    assert!(walked.is_ok());
}

#[test]
fn matching_lines_gathered_in_visit_order() {
    let entries = fixture_entries();
    assert_eq!(
        Ok(vec![
            String::from("stalwarts"),
            String::from("thwarts"),
            String::from("warts")
        ]),
        search_entries("warts", true, &entries)
    );
}

#[test]
fn unreadable_file_fails_the_whole_search() {
    let entries = vec![
        FileEntry {
            path: String::from("fixtures/a.txt"),
            contents: Ok(String::from("warts here")),
        },
        FileEntry {
            path: String::from("fixtures/locked.txt"),
            contents: Err(String::from("permission denied")),
        },
        FileEntry {
            path: String::from("fixtures/b.txt"),
            contents: Ok(String::from("warts there")),
        },
    ];
    assert_eq!(
        Err(SearchError::NotReadable {
            path: String::from("fixtures/locked.txt"),
            cause: String::from("permission denied"),
        }),
        search_entries("warts", true, &entries)
    );
}

#[test]
fn repeated_search_gives_identical_output() {
    let first = search_entries("warts", false, &fixture_entries());
    let second = search_entries("warts", false, &fixture_entries());
    assert_eq!(first, second);
    assert_eq!(
        Ok(vec![
            String::from("stalwarts"),
            String::from("thwarts"),
            String::from("warts")
        ]),
        first
    );
}

#[test]
fn tagged_lines_carry_their_source_path() {
    let entries = fixture_entries();
    assert_eq!(
        Ok(vec![
            (String::from("fixtures/a.txt"), String::from("stalwarts")),
            (String::from("fixtures/b.txt"), String::from("thwarts")),
            (String::from("fixtures/b.txt"), String::from("warts"))
        ]),
        search_entries_tagged("warts", true, &entries)
    );
}

#[test]
fn case_mode_respected_across_entries() {
    let entries = vec![
        FileEntry {
            path: String::from("fixtures/a.txt"),
            contents: Ok(String::from("I'm Nobody ! Who are you ?\nwho indeed")),
        },
        FileEntry {
            path: String::from("fixtures/b.txt"),
            contents: Ok(String::from("2I'm Nobody ! Who are you ?")),
        },
    ];
    assert_eq!(
        Ok(vec![
            String::from("I'm Nobody ! Who are you ?"),
            String::from("2I'm Nobody ! Who are you ?")
        ]),
        search_entries("Who", true, &entries)
    );
    assert_eq!(
        Ok(vec![
            String::from("I'm Nobody ! Who are you ?"),
            String::from("who indeed"),
            String::from("2I'm Nobody ! Who are you ?")
        ]),
        search_entries("Who", false, &entries)
    );
}
