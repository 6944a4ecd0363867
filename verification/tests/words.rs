//! Words, quotes, escapes and variables.
use shell_rs::command::Command;
use shell_rs::store::TextMap;
use shell_rs::text::{is_white_space, join, same_text, trim};

fn words(line: &str) -> Vec<String> {
    Command::tokenize(line)
}

fn vars(pairs: &[(&str, &str)]) -> TextMap<String> {
    let mut map = TextMap::new();
    for (name, value) in pairs {
        map.insert(name.to_string(), value.to_string());
    }
    map
}

#[test]
fn spaces_separate_words() {
    assert_eq!(words("a b"), vec!["a", "b"]);
    assert_eq!(words("  a   b  "), vec!["a", "b"]);
    assert_eq!(words("a\tb"), vec!["a\tb"]);
    assert_eq!(words(""), Vec::<String>::new());
    assert_eq!(words("   "), Vec::<String>::new());
}

#[test]
fn quoted_text_is_one_word() {
    assert_eq!(words("echo \"hello world\""), vec!["echo", "hello world"]);
    assert_eq!(words("echo 'hello world'"), vec!["echo", "hello world"]);
    assert_eq!(words("a'b c'd"), vec!["ab cd"]);
    assert_eq!(words("'a'\"b\"c"), vec!["abc"]);
}

#[test]
fn single_quotes_keep_everything() {
    assert_eq!(words("'a\\b'"), vec!["a\\b"]);
    assert_eq!(words("'a\"b'"), vec!["a\"b"]);
    assert_eq!(words("'$x'"), vec!["$x"]);
}

#[test]
fn double_quotes_keep_most_backslashes() {
    assert_eq!(words("\"a\\\\b\""), vec!["a\\b"]);
    assert_eq!(words("\"a\\\"b\""), vec!["a\"b"]);
    assert_eq!(words("\"a\\nb\""), vec!["a\\nb"]);
    assert_eq!(words("\"it's\""), vec!["it's"]);
}

#[test]
fn a_backslash_keeps_the_next_character() {
    assert_eq!(words("a\\ b"), vec!["a b"]);
    assert_eq!(words("\\'a"), vec!["'a"]);
    assert_eq!(words("a\\nb"), vec!["anb"]);
    assert_eq!(words("a\\"), vec!["a"]);
}

#[test]
fn empty_quotes_are_no_word() {
    assert_eq!(words("''"), Vec::<String>::new());
    assert_eq!(words("a '' b"), vec!["a", "b"]);
    assert_eq!(words("\"\""), Vec::<String>::new());
}

#[test]
fn an_open_quote_ends_with_the_line() {
    assert_eq!(words("'a b"), vec!["a b"]);
    assert_eq!(words("\"a b"), vec!["a b"]);
}

#[test]
fn a_space_outside_quotes_separates_what_is_read() {
    let left = "a 'b c'";
    let right = "\"d e\" f";
    let mut both = words(left);
    both.extend(words(right));
    assert_eq!(words(&format!("{} {}", left, right)), both);
}

#[test]
fn plain_words_are_read_back() {
    let list = vec!["ls".to_string(), "-la".to_string(), "dir/file.txt".to_string()];
    assert_eq!(words(&join(&list, " ")), list);
}

#[test]
fn escaping_every_character_gives_the_text_back() {
    let text = "a 'b' \"c\" \\ $d";
    let mut line = String::new();
    for c in text.chars() {
        line.push('\\');
        line.push(c);
    }
    assert_eq!(words(&line), vec![text]);
    assert_eq!(words(&format!("'{}'", "a \"b\" \\ $d")), vec!["a \"b\" \\ $d"]);
    assert_eq!(words(&format!("\"{}\"", "a 'b' $d")), vec!["a 'b' $d"]);
}

#[test]
fn variables_are_replaced_by_their_values() {
    let v = vars(&[("Item", "widget"), ("A", "1"), ("E", "")]);
    assert_eq!(Command::expand_param("stock_${Item}_id", &v), "stock_widget_id");
    assert_eq!(Command::expand_param("$Item", &v), "widget");
    assert_eq!(Command::expand_param("$A$A-$A", &v), "11-1");
    assert_eq!(Command::expand_param("x${E}y", &v), "xy");
    assert_eq!(Command::expand_param("$A.b", &v), "1.b");
}

#[test]
fn unknown_variables_are_empty() {
    let v = vars(&[]);
    assert_eq!(Command::expand_param("a$nameb", &v), "a");
    assert_eq!(Command::expand_param("a${name}b", &v), "ab");
    assert_eq!(Command::expand_param("${}", &v), "");
}

#[test]
fn a_dollar_without_a_name_stays() {
    let v = vars(&[("A", "1")]);
    assert_eq!(Command::expand_param("$", &v), "$");
    assert_eq!(Command::expand_param("a$", &v), "a$");
    assert_eq!(Command::expand_param("$$A", &v), "$1");
    assert_eq!(Command::expand_param("$-", &v), "$-");
    assert_eq!(Command::expand_param("${A", &v), "${A");
}

#[test]
fn values_are_not_expanded_again() {
    let v = vars(&[("A", "$B"), ("B", "2")]);
    assert_eq!(Command::expand_param("$A", &v), "$B");
    assert_eq!(Command::expand_param("${A}x", &v), "$Bx");
}

#[test]
fn text_without_a_dollar_stays() {
    let v = vars(&[("A", "1")]);
    assert_eq!(Command::expand_param("A {A} a b", &v), "A {A} a b");
    assert_eq!(Command::expand_param("", &v), "");
}

#[test]
fn identifiers() {
    assert!(Command::valid_identifier("Item"));
    assert!(Command::valid_identifier("_a1"));
    assert!(!Command::valid_identifier(""));
    assert!(!Command::valid_identifier("1a"));
    assert!(!Command::valid_identifier("a-b"));
    assert!(!Command::valid_identifier("a b"));
}

#[test]
fn an_assigned_value_is_found_and_others_stay() {
    let mut v = vars(&[("A", "1"), ("B", "2")]);
    v.insert("A".to_string(), "3".to_string());
    assert_eq!(Command::expand_param("$A$B", &v), "32");
    v.remove("A");
    assert_eq!(Command::expand_param("$A$B", &v), "2");
    assert_eq!(v.get("A"), None);
    assert_eq!(v.get("B"), Some(&"2".to_string()));
}

#[test]
fn white_space_is_that_of_char() {
    for n in 0..=0x10ffffu32 {
        if let Some(c) = char::from_u32(n) {
            assert_eq!(is_white_space(c), c.is_whitespace(), "{:?}", c);
        }
    }
}

#[test]
fn trimming_is_that_of_str() {
    let samples = ["", " ", "a", " a ", "\t\na b\r\n ", "\u{3000}x\u{a0}", "\u{85}", "é "];
    for s in samples {
        assert_eq!(trim(s), s.trim());
    }
}

#[test]
fn texts_are_the_same_when_their_characters_are() {
    assert!(same_text("", ""));
    assert!(same_text("é", "é"));
    assert!(!same_text("a", "ab"));
    assert!(!same_text("ab", "a"));
    assert!(!same_text("a", "b"));
}
