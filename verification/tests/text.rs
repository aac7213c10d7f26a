use dsh_desktop::text::{decimal_string, find, parse_unsigned, split_char, str_lt, trim};

#[test]
fn text_helpers_behave_like_std() {
    assert_eq!(trim("  a b \n"), "a b");
    assert_eq!(find("abcabc", "ca"), Some(2));
    assert_eq!(split_char("a//b", '/'), vec!["a", "", "b"]);
    assert_eq!(parse_unsigned("+42", 100), Some(42));
    assert_eq!(parse_unsigned("101", 100), None);
    assert_eq!(decimal_string(1234567890123), "1234567890123");
    assert!(str_lt("alpha", "beta"));
    assert!(!str_lt("b", "b"));
}
