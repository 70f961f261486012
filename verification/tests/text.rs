use aube_kit::text::{chars_of, string_from_chars, text_eq, text_le_exec, white_space};

#[test]
fn text_order_is_byte_order() {
    assert!(text_le_exec("2020-01-01T00:00:00.000Z", "2021-01-01T00:00:00.000Z"));
    assert!(text_le_exec("2021-01-01T00:00:00.000Z", "2021-01-01T00:00:00.000Z"));
    assert!(!text_le_exec("2022-01-01T00:00:00.000Z", "2021-01-01T00:00:00.000Z"));
    assert!(text_le_exec("abc", "abcd"));
    assert!(!text_le_exec("abcd", "abc"));
    assert!(text_le_exec("", ""));
    assert!(text_le_exec("Z", "a"));
    assert!(text_le_exec("z", "é"));
}

#[test]
fn text_helpers() {
    assert!(text_eq("abc", "abc"));
    assert!(!text_eq("abc", "abd"));
    assert!(!text_eq("ab", "abc"));
    assert_eq!(chars_of("héllo"), vec!['h', 'é', 'l', 'l', 'o']);
    assert_eq!(string_from_chars(&['a', 'ß']), "aß");
    assert!(white_space('\u{2003}'));
    assert!(!white_space('x'));
}
