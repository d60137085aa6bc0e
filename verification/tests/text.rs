use dotlink::text::{
    chars_of, contains_chars, decimal_chars, lines_of, occurs_at_index, replace_chars,
    split_chars, string_of, trim_chars,
};

fn chars(s: &str) -> Vec<char> {
    s.chars().collect()
}

fn text(v: &Vec<char>) -> String {
    v.iter().collect()
}

fn texts(v: &Vec<Vec<char>>) -> Vec<String> {
    v.iter().map(text).collect()
}

#[test]
fn chars_of_keeps_every_character_in_order() {
    assert_eq!(chars_of("a/é(1)"), vec!['a', '/', 'é', '(', '1', ')']);
    assert_eq!(chars_of(""), Vec::<char>::new());
}

#[test]
fn string_of_builds_the_same_text() {
    assert_eq!(string_of(&vec!['(', '1', ')', 'ß']), "(1)ß");
    assert_eq!(string_of(&Vec::new()), "");
    assert_eq!(string_of(&chars_of("round trip")), "round trip");
}

#[test]
fn trim_chars_agrees_with_str_trim() {
    for s in ["  a b \t", "", "   ", "x", "\u{a0}x\u{2003}", "\n#c\r\n", " : "] {
        assert_eq!(text(&trim_chars(&chars(s))), s.trim());
    }
}

#[test]
fn occurs_at_index_checks_one_position() {
    let s = chars("abcabc");
    assert!(occurs_at_index(&s, &chars("abc"), 0));
    assert!(occurs_at_index(&s, &chars("abc"), 3));
    assert!(!occurs_at_index(&s, &chars("abc"), 1));
    assert!(!occurs_at_index(&s, &chars("abc"), 4));
    assert!(!occurs_at_index(&s, &chars("abc"), 7));
    assert!(occurs_at_index(&s, &chars(""), 6));
}

#[test]
fn contains_chars_agrees_with_str_contains() {
    for (s, p) in [("abc", "bc"), ("abc", "cb"), ("", ""), ("", "a"), ("aab", "ab"), ("ab", "abc")]
    {
        assert_eq!(contains_chars(&chars(s), &chars(p)), s.contains(p));
    }
}

#[test]
fn replace_chars_agrees_with_str_replace() {
    for (s, from, to) in [
        ("(1)/pngs/(2)", "(1)", "neofetch"),
        ("aaa", "aa", "b"),
        ("abab", "ab", ""),
        ("abc", "x", "y"),
        ("", "x", "y"),
        ("(1)(1)", "(1)", "(1)(1)"),
        ("xx(1", "(1)", "y"),
    ] {
        assert_eq!(text(&replace_chars(&chars(s), &chars(from), &chars(to))), s.replace(from, to));
    }
}

#[test]
fn decimal_chars_agrees_with_to_string() {
    for n in [0usize, 1, 9, 10, 11, 99, 100, 12345, usize::MAX] {
        assert_eq!(text(&decimal_chars(n)), n.to_string());
    }
}

#[test]
fn split_chars_agrees_with_str_split() {
    for s in ["a:b", "a", "", ":", "a::b", ":a:", "~/.x/(*) : y/(1)"] {
        let expected: Vec<String> = s.split(':').map(|f| f.to_string()).collect();
        assert_eq!(texts(&split_chars(&chars(s), ':')), expected);
    }
}

#[test]
fn replacing_the_empty_text_changes_nothing() {
    assert_eq!(text(&replace_chars(&chars("abc"), &chars(""), &chars("x"))), "abc");
    assert_eq!(text(&replace_chars(&chars(""), &chars(""), &chars("x"))), "");
}

#[test]
fn lines_of_agrees_with_str_lines() {
    for s in ["a\nb", "a\nb\n", "", "\n", "a\r\nb\r", "\r\n\r\n", "a\n\nb", "x\r", "\rx\n"] {
        let expected: Vec<String> = s.lines().map(|l| l.to_string()).collect();
        assert_eq!(texts(&lines_of(&chars(s))), expected);
    }
}
