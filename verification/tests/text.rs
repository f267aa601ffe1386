use moon_dst::order::Rel;
use moon_dst::text::{
    chars_of, joined, contains, decimal_string, has_dot_prefix, same_text, signed_decimal_string,
    text_rel,
};

#[test]
fn chars_are_listed_in_order() {
    assert_eq!(chars_of("moon"), vec!['m', 'o', 'o', 'n']);
    assert_eq!(chars_of(""), Vec::<char>::new());
    assert_eq!(chars_of("é/ß"), vec!['é', '/', 'ß']);
}

#[test]
fn dot_prefix_is_detected() {
    assert!(has_dot_prefix(".git"));
    assert!(has_dot_prefix("."));
    assert!(!has_dot_prefix("git."));
    assert!(!has_dot_prefix(""));
}

#[test]
fn substring_is_case_sensitive() {
    assert!(contains("moonbitlang/core", "core"));
    assert!(contains("moonbitlang/core", "moonbitlang/core"));
    assert!(contains("moonbitlang/core", ""));
    assert!(contains("", ""));
    assert!(!contains("moonbitlang/core", "Core"));
    assert!(!contains("core", "moonbitlang/core"));
    assert!(!contains("abcab", "abd"));
    assert!(contains("aab", "ab"));
}

#[test]
fn substring_agrees_with_std() {
    let words = ["", "a", "ab", "ba", "aab", "abab", "x/core", "core", "y/util", "é", "éa"];
    for hay in words {
        for needle in words {
            assert_eq!(contains(hay, needle), hay.contains(needle), "{hay:?} {needle:?}");
        }
    }
}

#[test]
fn names_are_ordered_by_code_point() {
    assert_eq!(text_rel("a", "b"), Rel::Less);
    assert_eq!(text_rel("b", "a"), Rel::Greater);
    assert_eq!(text_rel("abc", "abc"), Rel::Same);
    assert_eq!(text_rel("ab", "abc"), Rel::Less);
    assert_eq!(text_rel("abc", "ab"), Rel::Greater);
    assert_eq!(text_rel("", ""), Rel::Same);
    assert_eq!(text_rel("", "a"), Rel::Less);
    assert_eq!(text_rel("Z", "a"), Rel::Less);
}

#[test]
fn name_order_agrees_with_std() {
    let words = ["", "a", "ab", "b", "B", "x/core", "x.core", "y/util", "é", "z", "日本", "a\u{10000}"];
    for a in words {
        for b in words {
            let expected = if a < b {
                Rel::Less
            } else if a == b {
                Rel::Same
            } else {
                Rel::Greater
            };
            assert_eq!(text_rel(a, b), expected, "{a:?} {b:?}");
            assert_eq!(same_text(a, b), a == b);
        }
    }
}

#[test]
fn numbers_are_rendered_in_decimal() {
    assert_eq!(decimal_string(0), "0");
    assert_eq!(decimal_string(7), "7");
    assert_eq!(decimal_string(10), "10");
    assert_eq!(decimal_string(1234567890), "1234567890");
    assert_eq!(decimal_string(u64::MAX), "18446744073709551615");
    assert_eq!(signed_decimal_string(0), "0");
    assert_eq!(signed_decimal_string(-1), "-1");
    assert_eq!(signed_decimal_string(101), "101");
    assert_eq!(signed_decimal_string(i32::MIN), "-2147483648");
    assert_eq!(signed_decimal_string(i32::MAX), "2147483647");
}

#[test]
fn joined_appends() {
    assert_eq!(joined("ab", "cd"), "abcd");
    assert_eq!(joined("", "cd"), "cd");
    assert_eq!(joined("ab", ""), "ab");
}
