use rkubectl::text::{
    chars_of, contains, is_white_space, join_with_newlines, split_fields, split_lines, string_of,
    trimmed,
};

#[test]
fn white_space_characters() {
    assert!(is_white_space(' '));
    assert!(is_white_space('\t'));
    assert!(is_white_space('\n'));
    assert!(is_white_space('\u{3000}'));
    assert!(!is_white_space('a'));
    assert!(!is_white_space('\u{200b}'));
    for c in ['a', ' ', '\u{85}', '\u{a0}', '\u{2009}', 'x', '\u{180e}'] {
        assert_eq!(is_white_space(c), c.is_whitespace());
    }
}

#[test]
fn chars_and_substrings() {
    let v = chars_of("héllo");
    assert_eq!(v, vec!['h', 'é', 'l', 'l', 'o']);
    assert_eq!(string_of(&v, 1, 4), "éll");
    assert_eq!(string_of(&v, 2, 2), "");
}

#[test]
fn trimming() {
    assert_eq!(trimmed("  a b \n"), "a b");
    assert_eq!(trimmed(" \t "), "");
    assert_eq!(trimmed("x"), "x");
}

#[test]
fn splitting_fields() {
    assert_eq!(split_fields("  a  bb\tc \n"), vec!["a", "bb", "c"]);
    assert!(split_fields("   ").is_empty());
    assert_eq!(split_fields("one"), vec!["one"]);
}

#[test]
fn splitting_lines() {
    assert_eq!(split_lines("a\nb\n\nc"), vec!["a", "b", "", "c"]);
    assert_eq!(split_lines(""), vec![""]);
    assert_eq!(split_lines("x\n"), vec!["x", ""]);
}

#[test]
fn substring_search() {
    assert!(contains("sophon-kg-sophon2-bf9769d97-4hqgv", "kg-sophon2"));
    assert!(!contains("sophon-kg-sophon2", "kg-sophon3"));
    assert!(contains("abc", ""));
    assert!(!contains("ab", "abc"));
    assert!(contains("abc", "abc"));
}

#[test]
fn joining_lines() {
    let parts = vec!["a".to_string(), "".to_string(), "c".to_string()];
    assert_eq!(join_with_newlines(&parts), "a\n\nc");
    assert_eq!(join_with_newlines(&Vec::new()), "");
    assert_eq!(join_with_newlines(&vec!["only".to_string()]), "only");
}
