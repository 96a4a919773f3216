use rtools::text::{
    chars_of, copy_range, join_from, position_of, position_of_ink, position_of_white, same_chars,
    spells, split_lines, split_on, split_words, strip_leading, trim,
};

fn chars(s: &str) -> Vec<char> {
    s.chars().collect()
}

fn texts(parts: Vec<Vec<char>>) -> Vec<String> {
    parts.into_iter().map(|p| p.into_iter().collect()).collect()
}

fn text(v: Vec<char>) -> String {
    v.into_iter().collect()
}

#[test]
fn characters_of_a_text() {
    assert_eq!(chars_of("aé日"), vec!['a', 'é', '日']);
    assert!(chars_of("").is_empty());
    assert!(same_chars(&chars("ab"), &chars("ab")));
    assert!(!same_chars(&chars("ab"), &chars("abc")));
    assert!(!same_chars(&chars("ab"), &chars("ac")));
    assert!(spells(&chars("info"), "info"));
    assert!(!spells(&chars("info"), "INFO"));
}

#[test]
fn positions() {
    let v = chars("a b]c]");
    assert_eq!(position_of(&v, ']', 0), 3);
    assert_eq!(position_of(&v, ']', 4), 5);
    assert_eq!(position_of(&v, ']', 6), 6);
    assert_eq!(position_of(&v, 'x', 0), 6);
    assert_eq!(position_of_white(&v, 0), 1);
    assert_eq!(position_of_white(&v, 2), 6);
    assert_eq!(position_of_ink(&chars(" \t\u{a0}x"), 0), 3);
    assert_eq!(position_of_ink(&chars("   "), 1), 3);
    assert_eq!(text(copy_range(&v, 2, 5)), "b]c");
}

#[test]
fn trimming_as_the_standard_library_trims() {
    for s in ["", " ", "a", "  a b \t\n", "\u{2003}x\u{3000}", "x  ", "\r\n"] {
        assert_eq!(text(trim(&chars(s))), s.trim(), "{:?}", s);
    }
    for s in ["", "[", "[[a[", "a[", " [a"] {
        assert_eq!(text(strip_leading(&chars(s), '[')), s.trim_start_matches('['), "{:?}", s);
    }
}

#[test]
fn words_as_the_standard_library_splits_them() {
    for s in ["", "   ", "a", " a  b\tc\n", "one\u{a0}two", "x\r\ny", "a b c d e "] {
        let expected: Vec<String> = s.split_whitespace().map(|w| w.to_string()).collect();
        assert_eq!(texts(split_words(&chars(s))), expected, "{:?}", s);
    }
}

#[test]
fn lines_as_the_standard_library_splits_them() {
    for s in ["", "\n", "a", "a\n", "a\nb", "a\r\nb\r\n", "a\rb\n", "\r\n\r\n", "a\n\nb\n\n", "a\r", "\r"] {
        let expected: Vec<String> = s.lines().map(|l| l.to_string()).collect();
        assert_eq!(texts(split_lines(&chars(s))), expected, "{:?}", s);
    }
}

#[test]
fn splitting_and_joining() {
    for s in ["", "a", "a]b", "]", "a]]b]", "]]"] {
        let expected: Vec<String> = s.split(']').map(|p| p.to_string()).collect();
        let parts = split_on(&chars(s), ']');
        assert_eq!(texts(parts.clone()), expected, "{:?}", s);
        assert_eq!(text(join_from(&parts, 0, ']')), s);
    }
    let parts = vec![chars("a"), chars("b"), chars(""), chars("c")];
    assert_eq!(text(join_from(&parts, 0, ' ')), "a b  c");
    assert_eq!(text(join_from(&parts, 1, ' ')), "b  c");
    assert_eq!(text(join_from(&parts, 3, ' ')), "c");
    assert_eq!(text(join_from(&parts, 4, ' ')), "");
}
