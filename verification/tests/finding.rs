//! Finding the file that a name stands for.
use shell_rs::command::{exeCmd, Command};
use shell_rs::lookup::{
    is_executable, Candidate, FileMeta, LookupError, ParseError, PathFacts, PathTable,
};
use shell_rs::store::TextMap;

fn candidate(path: &str, meta: Option<FileMeta>) -> Candidate {
    Candidate { path: path.to_string(), meta }
}

fn file(mode: u32) -> FileMeta {
    FileMeta { is_file: true, mode }
}

fn facts(direct: Result<FileMeta, String>, search: Result<Vec<Candidate>, String>) -> PathFacts {
    PathFacts { direct, search }
}

#[test]
fn executables_are_files_with_an_execute_bit() {
    assert!(is_executable(&file(0o755)));
    assert!(is_executable(&file(0o001)));
    assert!(is_executable(&file(0o010)));
    assert!(is_executable(&file(0o100)));
    assert!(!is_executable(&file(0o644)));
    assert!(!is_executable(&FileMeta { is_file: false, mode: 0o755 }));
}

#[test]
fn the_first_executable_of_the_path_wins() {
    let found = facts(
        Err(String::new()),
        Ok(vec![
            candidate("/a/x", None),
            candidate("/b/x", Some(file(0o644))),
            candidate("/c/x", Some(FileMeta { is_file: false, mode: 0o755 })),
            candidate("/d/x", Some(file(0o755))),
            candidate("/e/x", Some(file(0o755))),
        ]),
    );
    assert_eq!(Command::get_path_exe("x", &found), Ok("/d/x".to_string()));
}

#[test]
fn names_without_an_executable_are_not_found() {
    let none = facts(Err(String::new()), Ok(vec![candidate("/a/x", Some(file(0o644)))]));
    assert_eq!(Command::get_path_exe("x", &none), Err(LookupError::PathNotFound));
    let unset = facts(Err(String::new()), Err("environment variable not found".to_string()));
    assert_eq!(
        Command::get_path_exe("x", &unset),
        Err(LookupError::SearchPath("environment variable not found".to_string()))
    );
}

#[test]
fn names_with_a_slash_are_paths() {
    assert!(Command::is_path("./x"));
    assert!(!Command::is_path("x"));
    let here = |direct| facts(direct, Ok(vec![candidate("/a/x", Some(file(0o755)))]));
    assert_eq!(Command::get_path_exe("./x", &here(Ok(file(0o700)))), Ok("./x".to_string()));
    assert_eq!(
        Command::get_path_exe("./x", &here(Ok(file(0o600)))),
        Err(LookupError::NotExecutable)
    );
    assert_eq!(
        Command::get_path_exe("./x", &here(Err("gone".to_string()))),
        Err(LookupError::Metadata("gone".to_string()))
    );
}

#[test]
fn errors_in_words() {
    assert_eq!(LookupError::NotExecutable.message(), "Not executable");
    assert_eq!(LookupError::PathNotFound.message(), "Path Not Found");
    assert_eq!(LookupError::Metadata("a".to_string()).message(), "a");
    assert_eq!(LookupError::SearchPath("b".to_string()).message(), "b");
    assert_eq!(ParseError::InvalidInput.message(), Some("Invalid Input !!".to_string()));
    assert_eq!(
        ParseError::Lookup(LookupError::PathNotFound).message(),
        Some("Path Not Found".to_string())
    );
    assert_eq!(ParseError::Unresolved("x".to_string()).message(), None);
}

#[test]
fn a_text_is_a_command_with_arguments() {
    let mut table: PathTable = TextMap::new();
    table.insert("ls".to_string(), Ok("/bin/ls".to_string()));
    table.insert("no".to_string(), Err(LookupError::PathNotFound));
    assert_eq!(
        Command::parse_input("ls 'a b' c", &table),
        Ok(exeCmd::new(
            "ls",
            Some("/bin/ls".to_string()),
            vec!["a b".to_string(), "c".to_string()]
        ))
    );
    assert_eq!(Command::parse_input("  ", &table), Err(ParseError::InvalidInput));
    assert_eq!(
        Command::parse_input("no x", &table),
        Err(ParseError::Lookup(LookupError::PathNotFound))
    );
    assert_eq!(
        Command::parse_input("wc", &table),
        Err(ParseError::Unresolved("wc".to_string()))
    );
}
