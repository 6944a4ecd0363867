//! Lines, numbers and the order of texts.
use shell_rs::lines::split_lines;
use shell_rs::numbers::{parse_count, push_decimal};
use shell_rs::order::{dedup, sort};
use shell_rs::text::join;

fn list(items: &[&str]) -> Vec<String> {
    items.iter().map(|s| s.to_string()).collect()
}

#[test]
fn lines_are_those_of_str() {
    let samples = [
        "", "\n", "a", "a\n", "a\nb", "a\r\nb\r\n", "\r\n", "a\r", "a\r\r\n", "\n\n", "a\n\nb",
        "é\nü",
    ];
    for s in samples {
        let expected: Vec<String> = s.lines().map(|l| l.to_string()).collect();
        assert_eq!(split_lines(s), expected, "{:?}", s);
    }
}

#[test]
fn lines_behind_a_line_feed_are_read_on_their_own() {
    let mut both = split_lines("a\nb\n");
    both.extend(split_lines("c\nd"));
    assert_eq!(split_lines("a\nb\nc\nd"), both);
}

#[test]
fn joined_lines_are_read_back() {
    let lines = list(&["one", "two words", "three"]);
    assert_eq!(split_lines(&(join(&lines, "\n") + "\n")), lines);
}

#[test]
fn decimals_are_those_of_std() {
    for n in [0usize, 1, 9, 10, 99, 100, 12345, usize::MAX] {
        let mut s = "n=".to_string();
        push_decimal(&mut s, n);
        assert_eq!(s, format!("n={}", n));
        assert_eq!(parse_count(&n.to_string()), Some(n));
    }
}

#[test]
fn counts_are_those_of_std() {
    let samples = [
        "", "0", "7", "+7", "-7", "007", "7a", " 7", "+", "++7", "18446744073709551615",
        "18446744073709551616", "99999999999999999999999", "١",
    ];
    for s in samples {
        assert_eq!(parse_count(s), s.parse::<usize>().ok(), "{:?}", s);
    }
}

#[test]
fn sorting_is_that_of_std() {
    let samples = [
        list(&[]),
        list(&["b"]),
        list(&["b", "a"]),
        list(&["b", "a", "ab", "", "a"]),
        list(&["Z", "a", "é", "z", "\u{10000}", "\u{ffff}"]),
        list(&["echo", "exit", "cd", "echo"]),
    ];
    for names in samples {
        let mut expected = names.clone();
        expected.sort();
        assert_eq!(sort(&names), expected);
        expected.dedup();
        assert_eq!(dedup(&sort(&names)), expected);
    }
}

#[test]
fn only_neighbours_are_left_out() {
    assert_eq!(dedup(&list(&["a", "b", "a", "a"])), list(&["a", "b", "a"]));
}
