use cspm::text::{join_with, same_text, split_chars, trim_text};

#[test]
fn split_like_str_split() {
    assert_eq!(split_chars("a.b.c", '.'), vec!["a", "b", "c"]);
    assert_eq!(split_chars("", '.'), vec![""]);
    assert_eq!(split_chars(".x.", '.'), vec!["", "x", ""]);
    assert_eq!(split_chars("é@ü", '@'), vec!["é", "ü"]);
}

#[test]
fn trim_unicode_whitespace() {
    assert_eq!(trim_text("  cs_modules\r"), "cs_modules");
    assert_eq!(trim_text("\u{3000}x\u{a0}"), "x");
    assert_eq!(trim_text("   "), "");
    assert_eq!(trim_text("a b"), "a b");
}

#[test]
fn join_and_compare() {
    assert_eq!(join_with("a", '/', "b"), "a/b");
    assert!(same_text("abc", "abc"));
    assert!(!same_text("abc", "abd"));
}
