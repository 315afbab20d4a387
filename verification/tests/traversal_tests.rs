use rgrep::args::{get_args, validate_path, GrepArgsParseError};
use rgrep::scanner::{GrepArgs, MatchInfo};
use rgrep::traversal::{Action, Entry, Traversal};

fn args(pattern: &str, path: &str) -> GrepArgs {
    GrepArgs { pattern: pattern.to_string(), path: path.to_string() }
}

fn read(lines: &[&str]) -> Vec<Option<String>> {
    lines.iter().map(|line| Some(line.to_string())).collect()
}

fn file(path: &str) -> Entry {
    Entry { path: path.to_string(), is_dir: false }
}

fn dir(path: &str) -> Entry {
    Entry { path: path.to_string(), is_dir: true }
}

fn words(list: &[&str]) -> Vec<String> {
    list.iter().map(|word| word.to_string()).collect()
}

#[test]
fn directory_recursion_finds_both_files() {
    let mut traversal = Traversal::new(args("hello", "root"), true);
    assert_eq!(traversal.next_action(), Action::ListDir("root".to_string()));
    assert!(traversal.process_dir(vec![file("root/a.txt"), dir("root/sub")]));
    assert_eq!(traversal.next_action(), Action::ReadFile("root/a.txt".to_string()));
    assert!(traversal.process_file(&read(&["hello world"])));
    assert_eq!(traversal.next_action(), Action::ListDir("root/sub".to_string()));
    assert!(traversal.process_dir(vec![file("root/sub/b.txt")]));
    assert_eq!(traversal.next_action(), Action::ReadFile("root/sub/b.txt".to_string()));
    assert!(traversal.process_file(&read(&["say hello"])));
    assert_eq!(traversal.next_action(), Action::Finished);
    assert!(traversal.is_finished());
    let mut results = traversal.into_results();
    results.sort_by(|a, b| a.file_path.cmp(&b.file_path));
    assert_eq!(
        results,
        vec![
            MatchInfo {
                line: "\x1b[6;30;42mhello\x1b[0m world".to_string(),
                line_number: 0,
                file_path: "root/a.txt".to_string(),
            },
            MatchInfo {
                line: "say \x1b[6;30;42mhello\x1b[0m".to_string(),
                line_number: 0,
                file_path: "root/sub/b.txt".to_string(),
            },
        ]
    );
}

#[test]
fn single_file_is_read_without_listing() {
    let mut traversal = Traversal::new(args("hello", "notes.txt"), false);
    assert_eq!(traversal.next_action(), Action::ReadFile("notes.txt".to_string()));
    assert!(traversal.process_file(&read(&["nothing", "hello there"])));
    assert_eq!(traversal.next_action(), Action::Finished);
    let results = traversal.into_results();
    assert_eq!(results.len(), 1);
    assert_eq!(results[0].file_path, "notes.txt");
    assert_eq!(results[0].line_number, 1);
}

#[test]
fn entries_are_visited_in_listing_order_depth_first() {
    let mut traversal = Traversal::new(args("x", "r"), true);
    let mut visited = Vec::new();
    loop {
        match traversal.next_action() {
            Action::ListDir(path) => {
                let entries = match path.as_str() {
                    "r" => vec![dir("r/d1"), file("r/f1"), dir("r/d2")],
                    "r/d1" => vec![file("r/d1/a"), dir("r/d1/e"), file("r/d1/b")],
                    "r/d1/e" => vec![file("r/d1/e/z")],
                    _ => Vec::new(),
                };
                visited.push(path);
                assert!(traversal.process_dir(entries));
            }
            Action::ReadFile(path) => {
                visited.push(path);
                assert!(traversal.process_file(&read(&["x"])));
            }
            Action::Finished => break,
        }
    }
    assert_eq!(
        visited,
        words(&["r", "r/d1", "r/d1/a", "r/d1/e", "r/d1/e/z", "r/d1/b", "r/f1", "r/d2"])
    );
    let found: Vec<String> = traversal.results().iter().map(|r| r.file_path.clone()).collect();
    assert_eq!(found, words(&["r/d1/a", "r/d1/e/z", "r/d1/b", "r/f1"]));
}

#[test]
fn empty_directory_yields_nothing() {
    let mut traversal = Traversal::new(args("x", "empty"), true);
    assert!(traversal.process_dir(Vec::new()));
    assert!(traversal.is_finished());
    assert!(traversal.into_results().is_empty());
}

#[test]
fn listing_is_refused_where_a_file_is_next() {
    let mut traversal = Traversal::new(args("x", "f"), false);
    assert!(!traversal.process_dir(vec![file("g")]));
    assert_eq!(traversal.next_action(), Action::ReadFile("f".to_string()));
    assert!(traversal.results().is_empty());
}

#[test]
fn lines_are_refused_where_a_directory_is_next() {
    let mut traversal = Traversal::new(args("x", "d"), true);
    assert!(!traversal.process_file(&read(&["x"])));
    assert_eq!(traversal.next_action(), Action::ListDir("d".to_string()));
    assert!(traversal.results().is_empty());
}

#[test]
fn nothing_is_taken_when_finished() {
    let mut traversal = Traversal::new(args("x", "f"), false);
    assert!(traversal.process_file(&read(&["x"])));
    assert!(!traversal.process_file(&read(&["x"])));
    assert!(!traversal.process_dir(vec![file("g")]));
    assert!(traversal.is_finished());
    assert_eq!(traversal.results().len(), 1);
}

#[test]
fn searching_twice_gives_the_same_results() {
    let run = || {
        let mut traversal = Traversal::new(args("a", "r"), true);
        traversal.process_dir(vec![file("r/1"), dir("r/s"), file("r/2")]);
        traversal.process_file(&read(&["a", "b", "aa"]));
        traversal.process_dir(vec![file("r/s/3")]);
        traversal.process_file(&read(&["ba"]));
        traversal.process_file(&read(&["c", "a"]));
        traversal.into_results()
    };
    let first = run();
    assert_eq!(first.len(), 4);
    assert_eq!(first, run());
}

#[test]
fn get_args_reads_pattern_and_path() {
    let parsed = get_args(&words(&["prog", "needle", "some/dir"]));
    assert_eq!(parsed, Ok(args("needle", "some/dir")));
}

#[test]
fn get_args_ignores_further_words() {
    let parsed = get_args(&words(&["prog", "needle", "some/dir", "more"]));
    assert_eq!(parsed, Ok(args("needle", "some/dir")));
}

#[test]
fn get_args_without_pattern() {
    assert_eq!(get_args(&words(&["prog"])), Err(GrepArgsParseError::NoPattern));
    assert_eq!(get_args(&Vec::new()), Err(GrepArgsParseError::NoPattern));
}

#[test]
fn get_args_without_path() {
    assert_eq!(get_args(&words(&["prog", "needle"])), Err(GrepArgsParseError::NoPath));
}

#[test]
fn nonexistent_path_is_rejected() {
    let parsed = get_args(&words(&["prog", "needle", "no/such/path"])).unwrap();
    let checked = validate_path(parsed, false);
    assert_eq!(checked, Err(GrepArgsParseError::InvalidPath));
    assert_eq!(GrepArgsParseError::InvalidPath.message(), "Error! Invalid path");
}

#[test]
fn existing_path_is_let_through() {
    let checked = validate_path(args("needle", "here"), true);
    assert_eq!(checked, Ok(args("needle", "here")));
}

#[test]
fn error_messages() {
    assert_eq!(GrepArgsParseError::NoPattern.message(), "Error! No pattern provided");
    assert_eq!(GrepArgsParseError::NoPath.message(), "Error! No path provided");
    assert_eq!(GrepArgsParseError::InvalidPath.message(), "Error! Invalid path");
}
