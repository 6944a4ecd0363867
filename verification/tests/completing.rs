//! Completing the word at the end of a line.
use shell_rs::command::Command;
use shell_rs::completion::{DirFile, DirName, ScriptCall, TabCompletion, TabStep};
use shell_rs::lookup::FileMeta;
use shell_rs::store::TextMap;

fn list(items: &[&str]) -> Vec<String> {
    items.iter().map(|s| s.to_string()).collect()
}

fn scripts(pairs: &[(&str, &str)]) -> TextMap<String> {
    let mut map = TextMap::new();
    for (command, script) in pairs {
        map.insert(command.to_string(), script.to_string());
    }
    map
}

fn single(s: &str) -> TabCompletion {
    TabCompletion::Single(s.to_string())
}

fn program(name: &str) -> DirFile {
    DirFile { name: name.to_string(), meta: Some(FileMeta { is_file: true, mode: 0o755 }) }
}

fn entry(name: &str, is_dir: bool) -> DirName {
    DirName { name: name.to_string(), is_dir }
}

#[test]
fn common_prefixes() {
    let prefix = |items: &[&str]| {
        Command::longest_common_prefix(&list(items))
    };
    assert_eq!(prefix(&[]), "");
    assert_eq!(prefix(&["abc"]), "abc");
    assert_eq!(prefix(&["abc", "abd"]), "ab");
    assert_eq!(prefix(&["abc", "abcd", "abce"]), "abc");
    assert_eq!(prefix(&["abc", "x"]), "");
    assert_eq!(prefix(&["é"]), "é");
    assert_eq!(prefix(&["ab\u{e9}", "abc"]), "ab");
}

#[test]
fn a_common_prefix_consists_of_characters() {
    assert_eq!(Command::longest_common_prefix(&list(&["éa", "éb"])), "é");
    assert_eq!(Command::longest_common_prefix(&list(&["éàa", "éàb"])), "éà");
    assert_eq!(Command::longest_common_prefix(&list(&["éa", "èb"])), "");
    assert_eq!(Command::pick_completion("", list(&["éa", "éb"])), single("é"));
    assert_eq!(
        Command::pick_completion("é", list(&["éa", "éb"])),
        TabCompletion::Multiple(list(&["éa", "éb"]))
    );
}

#[test]
fn picking_a_completion() {
    let pick = |word: &str, items: &[&str]| Command::pick_completion(word, list(items));
    assert_eq!(pick("ec", &[]), TabCompletion::Nothing);
    assert_eq!(pick("ec", &["echo"]), single("echo "));
    assert_eq!(pick("x", &["xyz_a", "xyz_b"]), single("xyz_"));
    assert_eq!(
        pick("xyz_", &["xyz_a", "xyz_b"]),
        TabCompletion::Multiple(list(&["xyz_a", "xyz_b"]))
    );
}

#[test]
fn the_first_word_is_a_command() {
    let none = scripts(&[]);
    assert_eq!(
        Command::tab_completion("ec", &none),
        TabStep::ListExecutables { prefix: "ec".to_string() }
    );
    assert_eq!(
        Command::tab_completion("", &none),
        TabStep::Finished(TabCompletion::Multiple(vec![]))
    );
    assert_eq!(
        Command::tab_completion("ls ", &none),
        TabStep::Finished(TabCompletion::Multiple(vec![]))
    );
}

#[test]
fn other_words_are_paths() {
    let none = scripts(&[]);
    let path = |prefix: &str, dir: &str| TabStep::ListDirectory {
        prefix: prefix.to_string(),
        search_dir: dir.to_string(),
    };
    assert_eq!(Command::tab_completion("ls fo", &none), path("fo", "."));
    assert_eq!(Command::tab_completion("ls a/b/fo", &none), path("a/b/fo", "a/b/"));
    assert_eq!(Command::tab_completion("./r", &none), path("./r", "./"));
    assert_eq!(Command::tab_completion(".r", &none), path(".r", "."));
    assert_eq!(Command::tab_completion("/r", &none), path("/r", "/"));
}

#[test]
fn scripts_are_asked_behind_their_command() {
    let map = scripts(&[("git", "/s")]);
    let call = |line: &str, prefix: &str, prev_word: &str| {
        assert_eq!(
            Command::tab_completion(line, &map),
            TabStep::RunScript(ScriptCall {
                script: "/s".to_string(),
                command: "git".to_string(),
                prefix: prefix.to_string(),
                prev_word: prev_word.to_string(),
                comp_line: line.to_string(),
                comp_point: line.len(),
            })
        );
    };
    call("git ch", "ch", "");
    call("git ", "", "");
    call("git remote ad", "ad", "remote");
    call("git remote  add x", "x", "remote  add");
    call("git é x", "x", "é");
    assert_eq!(
        Command::tab_completion("git", &map),
        TabStep::ListExecutables { prefix: "git".to_string() }
    );
}

#[test]
fn scripts_offer_lines() {
    assert_eq!(Command::script_candidates(" b \na\r\n"), list(&["a", "b"]));
    assert_eq!(Command::script_candidates(""), Vec::<String>::new());
    assert_eq!(
        Command::after_script("git ch", Some("checkout\n")),
        TabStep::Finished(single("checkout "))
    );
    assert_eq!(
        Command::after_script("git ch", Some("chi\nche\n")),
        TabStep::Finished(TabCompletion::Multiple(list(&["che", "chi"])))
    );
    for nothing in [None, Some("")] {
        assert_eq!(
            Command::after_script("git ch", nothing),
            TabStep::ListDirectory { prefix: "ch".to_string(), search_dir: ".".to_string() }
        );
    }
}

#[test]
fn completing_a_command() {
    let files = vec![program("ed"), program("env"), program("xyz"), program("xyz")];
    let complete = |word: &str| Command::complete_command(word, &files);
    assert_eq!(complete("ec"), single("echo "));
    assert_eq!(complete("x"), single("xyz "));
    assert_eq!(complete("q"), TabCompletion::Nothing);
    assert_eq!(complete("e"), TabCompletion::Multiple(list(&["echo", "exit", "ed", "env"])));
    assert_eq!(complete("com"), single("complete "));
}

#[test]
fn executables_are_listed_in_order_and_once() {
    let files = vec![
        program("xb"),
        program("xa"),
        program("xb"),
        program("y"),
        DirFile { name: "xc".to_string(), meta: None },
        DirFile {
            name: "xd".to_string(),
            meta: Some(FileMeta { is_file: true, mode: 0o644 }),
        },
        DirFile {
            name: "xe".to_string(),
            meta: Some(FileMeta { is_file: false, mode: 0o755 }),
        },
        program(".x"),
    ];
    assert_eq!(Command::get_exec_by_prefix("x", &files), list(&["xa", "xb"]));
    assert_eq!(Command::get_exec_by_prefix("", &files), list(&["xa", "xb", "y"]));
    assert_eq!(Command::get_exec_by_prefix(".", &files), Vec::<String>::new());
}

#[test]
fn builtins_come_before_executables() {
    assert_eq!(
        Command::command_candidates("e", &list(&["ed", "echo", "env"])),
        list(&["echo", "exit", "ed", "env"])
    );
    assert_eq!(Command::command_candidates("c", &list(&[])), list(&["cd", "complete"]));
    assert_eq!(Command::command_candidates("zz", &list(&[])), Vec::<String>::new());
}

#[test]
fn path_options_carry_their_kind() {
    let entries =
        vec![entry("foo", false), entry("food", true), entry(".foo", false), entry("bar", true)];
    assert_eq!(Command::path_candidates("a/fo", &entries), list(&["foo ", "food/"]));
    assert_eq!(Command::path_candidates("a/", &entries), list(&["bar/", "foo ", "food/"]));
    assert_eq!(Command::path_candidates(".f", &entries), Vec::<String>::new());
}

#[test]
fn completing_a_path() {
    let none = list(&[]);
    assert_eq!(Command::path_to_probe("x", &none), None);
    assert_eq!(Command::complete_path("x", &none, false), TabCompletion::Nothing);

    let one = list(&["food/"]);
    assert_eq!(Command::path_to_probe("a/fo", &one), Some("a/food/".to_string()));
    assert_eq!(Command::path_to_probe("fo", &one), Some(".food/".to_string()));
    assert_eq!(Command::complete_path("a/fo", &one, true), single("a/food//"));
    assert_eq!(Command::complete_path("fo", &one, false), single("food/ "));

    let grows = list(&["foo ", "food/"]);
    assert_eq!(Command::path_to_probe("a/f", &grows), None);
    assert_eq!(Command::complete_path("a/f", &grows, false), single("a/foo"));

    assert_eq!(Command::path_to_probe("a/foo", &grows), Some("a/foo ".to_string()));
    assert_eq!(
        Command::complete_path("a/foo", &grows, false),
        TabCompletion::Multiple(list(&["a/foo  ", "a/food/ "]))
    );
}

#[test]
fn completions_extend_the_word() {
    let candidates = list(&["make", "makefile", "maker"]);
    match Command::pick_completion("m", candidates.clone()) {
        TabCompletion::Single(s) => {
            assert!(s.starts_with("m") && s.len() > 1);
            assert!(candidates.iter().all(|c| c.starts_with(&s)));
        }
        other => panic!("{:?}", other),
    }
}
