//! Editing a line.
use shell_rs::completion::TabCompletion;
use shell_rs::editor::{prompt, Key, LineEditor, Outcome};

fn list(items: &[&str]) -> Vec<String> {
    items.iter().map(|s| s.to_string()).collect()
}

fn type_in(editor: &mut LineEditor, text: &str) {
    for c in text.chars() {
        let (shown, outcome) = editor.press(Key::Char(c), &vec![], "/");
        assert_eq!(shown, c.to_string());
        assert_eq!(outcome, Outcome::Continue);
    }
}

#[test]
fn the_prompt_shows_the_directory() {
    assert_eq!(prompt("/home/you", ""), "/home/you $ ");
    assert_eq!(prompt("/", "ls"), "/ $ ls");
}

#[test]
fn typed_text_is_the_line() {
    let mut editor = LineEditor::new();
    type_in(&mut editor, "echo é");
    assert_eq!(editor.buffer, "echo é");
    assert_eq!(
        editor.press(Key::Char('\n'), &vec![], "/"),
        ("\r\n".to_string(), Outcome::Finished)
    );
    assert_eq!(editor.buffer, "echo é");
    assert_eq!(
        editor.press(Key::Char('\r'), &vec![], "/"),
        ("\r\n".to_string(), Outcome::Finished)
    );
}

#[test]
fn backspace_takes_the_last_character_back() {
    let mut editor = LineEditor::new();
    assert_eq!(
        editor.press(Key::Backspace, &vec![], "/"),
        (String::new(), Outcome::Continue)
    );
    type_in(&mut editor, "aé");
    assert_eq!(
        editor.press(Key::Backspace, &vec![], "/d"),
        ("\r\x1b[K/d $ a".to_string(), Outcome::Continue)
    );
    assert_eq!(editor.buffer, "a");
}

#[test]
fn the_history_is_gone_back_and_forward_in() {
    let history = list(&["one", "two", "three"]);
    let mut editor = LineEditor::new();
    type_in(&mut editor, "draft");
    let mut press = |key: Key| {
        editor.press(key, &history, "/");
        editor.buffer.clone()
    };
    assert_eq!(press(Key::Up), "three");
    assert_eq!(press(Key::Up), "two");
    assert_eq!(press(Key::Up), "one");
    assert_eq!(press(Key::Up), "one");
    assert_eq!(press(Key::Down), "two");
    assert_eq!(press(Key::Down), "three");
    assert_eq!(press(Key::Down), "draft");
    assert_eq!(press(Key::Down), "draft");
}

#[test]
fn an_empty_history_is_not_entered() {
    let mut editor = LineEditor::new();
    assert_eq!(editor.press(Key::Up, &vec![], "/"), (String::new(), Outcome::Continue));
    assert_eq!(editor.press(Key::Down, &vec![], "/"), (String::new(), Outcome::Continue));
    assert_eq!(editor, LineEditor::new());
}

#[test]
fn what_is_shown_when_the_history_is_entered() {
    let mut editor = LineEditor::new();
    assert_eq!(
        editor.press(Key::Up, &list(&["ls"]), "/"),
        ("\r\x1b[K/ $ ls".to_string(), Outcome::Continue)
    );
}

#[test]
fn interrupting_leaves_the_shell() {
    let mut editor = LineEditor::new();
    type_in(&mut editor, "abc");
    assert_eq!(
        editor.press(Key::Ctrl('c'), &vec![], "/"),
        ("^C\r\n".to_string(), Outcome::Finished)
    );
    assert_eq!(editor.buffer, "exit");
}

#[test]
fn other_keys_do_nothing() {
    let mut editor = LineEditor::new();
    type_in(&mut editor, "a");
    for key in [Key::Other, Key::Ctrl('d')] {
        assert_eq!(editor.press(key, &vec![], "/"), (String::new(), Outcome::Continue));
    }
    assert_eq!(editor.buffer, "a");
}

#[test]
fn a_tab_asks_for_a_completion() {
    let mut editor = LineEditor::new();
    type_in(&mut editor, "ls fo");
    assert_eq!(
        editor.press(Key::Char('\t'), &vec![], "/"),
        (String::new(), Outcome::Complete)
    );
    assert_eq!(
        editor.complete(TabCompletion::Single("food/".to_string()), "/"),
        "\r\x1b[K/ $ ls food/"
    );
    assert_eq!(editor.buffer, "ls food/");
}

#[test]
fn several_completions_are_shown_the_second_time() {
    let mut editor = LineEditor::new();
    type_in(&mut editor, "xy");
    let several = || TabCompletion::Multiple(list(&["xya", "xyb"]));
    assert_eq!(editor.complete(several(), "/"), "\x07");
    assert_eq!(editor.complete(several(), "/"), "\r\nxya        xyb\r\n/ $ xy");
    assert_eq!(editor.complete(several(), "/"), "\x07");
    type_in(&mut editor, "z");
    assert_eq!(editor.complete(several(), "/"), "\x07");
    assert_eq!(editor.buffer, "xyz");
}

#[test]
fn the_bell_rings_without_completions() {
    let mut editor = LineEditor::new();
    type_in(&mut editor, "q");
    assert_eq!(editor.complete(TabCompletion::Nothing, "/"), "\x07");
    assert_eq!(editor.complete(TabCompletion::Multiple(vec![]), "/"), "\x07");
    assert_eq!(editor.buffer, "q");
    assert_eq!(editor.prev_tab_buffer, None);
}
