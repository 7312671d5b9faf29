use yarm::text::{
    chars_of, contains, decimal_of, ends_with, find_from, joined, lex_before, lines_of,
    same_text, split, split_once, starts_with, string_of, stripped_trailing, trimmed,
    trimmed_end, trimmed_start,
};

fn c(s: &str) -> Vec<char> {
    chars_of(s)
}

fn s(v: &Vec<char>) -> String {
    string_of(v)
}

fn all(v: &Vec<Vec<char>>) -> Vec<String> {
    v.iter().map(|x| string_of(x)).collect()
}

#[test]
fn characters_round_trip() {
    for t in ["", "abc", "\u{e9}\u{1F600}x", " \t"].iter() {
        assert_eq!(s(&c(t)), *t);
        assert_eq!(c(t), t.chars().collect::<Vec<char>>());
    }
    assert!(same_text("ab", "ab"));
    assert!(!same_text("ab", "abc"));
    assert!(!same_text("ab", "aB"));
}

#[test]
fn split_keeps_empty_pieces() {
    assert_eq!(all(&split(&c(""), '*')), vec![""]);
    assert_eq!(all(&split(&c("a"), '*')), vec!["a"]);
    assert_eq!(all(&split(&c("*"), '*')), vec!["", ""]);
    assert_eq!(all(&split(&c("a**b*"), '*')), vec!["a", "", "b", ""]);
    assert_eq!(all(&split(&c("/x/y"), '/')), vec!["", "x", "y"]);
}

#[test]
fn lines_end_at_line_feeds() {
    assert_eq!(all(&lines_of(&c(""))), Vec::<String>::new());
    assert_eq!(all(&lines_of(&c("a"))), vec!["a"]);
    assert_eq!(all(&lines_of(&c("a\n"))), vec!["a"]);
    assert_eq!(all(&lines_of(&c("a\n\nb"))), vec!["a", "", "b"]);
    assert_eq!(all(&lines_of(&c("a\r\nb\r"))), vec!["a", "b\r"]);
    assert_eq!(all(&lines_of(&c("a\r\r\n"))), vec!["a\r"]);
    assert_eq!(all(&lines_of(&c("\n"))), vec![""]);
    for t in ["", "a", "a\n", "a\n\nb", "a\r\nb\r", "a\r\r\n", "\n", "\r", "x\ny\n\n"].iter() {
        let expected: Vec<String> = t.lines().map(|l| l.to_string()).collect();
        assert_eq!(all(&lines_of(&c(t))), expected);
    }
}

#[test]
fn trimming_removes_unicode_white_space() {
    for t in ["", " a ", "\t\na b\r\n", "\u{a0}x\u{2003}", "\u{3000}", "x", " \u{85}y\u{1680}"].iter()
    {
        assert_eq!(s(&trimmed(&c(t))), t.trim());
        assert_eq!(s(&trimmed_start(&c(t))), t.trim_start());
        assert_eq!(s(&trimmed_end(&c(t))), t.trim_end());
    }
    assert_eq!(s(&trimmed(&c("\u{200b}x"))), "\u{200b}x");
}

#[test]
fn trailing_repetitions_are_all_removed() {
    assert_eq!(s(&stripped_trailing(&c("a.git.git"), &c(".git"))), "a");
    assert_eq!(s(&stripped_trailing(&c("a///"), &c("/"))), "a");
    assert_eq!(s(&stripped_trailing(&c("a/**/**"), &c("**"))), "a/**/");
    assert_eq!(s(&stripped_trailing(&c("a***"), &c("**"))), "a*");
    assert_eq!(s(&stripped_trailing(&c("abc"), &c(""))), "abc");
    assert_eq!(s(&stripped_trailing(&c(".git"), &c(".git"))), "");
}

#[test]
fn searching_finds_the_first_place() {
    assert_eq!(find_from(&c("abcabc"), &c("bc"), 0), Some(1));
    assert_eq!(find_from(&c("abcabc"), &c("bc"), 2), Some(4));
    assert_eq!(find_from(&c("abcabc"), &c("bc"), 5), None);
    assert_eq!(find_from(&c("abc"), &c(""), 3), Some(3));
    assert_eq!(find_from(&c("abc"), &c(""), 4), None);
    assert_eq!(find_from(&c("abc"), &c("abcd"), 0), None);
    assert!(contains(&c("abc"), &c("")));
    assert!(contains(&c("abc"), &c("c")));
    assert!(!contains(&c("abc"), &c("d")));
    assert!(starts_with(&c("abc"), &c("ab")));
    assert!(!starts_with(&c("abc"), &c("bc")));
    assert!(ends_with(&c("abc"), &c("bc")));
    assert!(!ends_with(&c("bc"), &c("abc")));
}

#[test]
fn cutting_at_the_first_separator() {
    let (a, b) = split_once(&c("k=v=w"), '=').unwrap();
    assert_eq!((s(&a), s(&b)), ("k".to_string(), "v=w".to_string()));
    assert!(split_once(&c("kv"), '=').is_none());
    let (x, y) = split_once(&c("="), '=').unwrap();
    assert_eq!((s(&x), s(&y)), ("".to_string(), "".to_string()));
}

#[test]
fn joining_puts_the_separator_between() {
    assert_eq!(s(&joined(&vec![], ", ")), "");
    assert_eq!(s(&joined(&vec![c("a")], ", ")), "a");
    assert_eq!(s(&joined(&vec![c("a"), c(""), c("b")], ", ")), "a, , b");
}

#[test]
fn numbers_are_written_in_decimal() {
    for n in [0u64, 7, 10, 99, 100, 1234567890, u64::MAX].iter() {
        assert_eq!(s(&decimal_of(*n)), n.to_string());
    }
}

#[test]
fn strings_are_ordered_by_code_point() {
    let words = ["", "a", "A", "ab", "b", "a/b", "a-b", "\u{e9}", "z", "a\u{10000}", "a\u{ffff}"];
    for x in words.iter() {
        for y in words.iter() {
            assert_eq!(lex_before(&c(x), &c(y)), x <= y);
        }
    }
}
