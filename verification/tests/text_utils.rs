use talknet::text::{remove_all_str, split_whitespace, trim_string};

fn s(x: &str) -> String {
    x.to_string()
}

#[test]
fn trim_removes_unicode_whitespace() {
    assert_eq!(trim_string("  a b \n\t"), s("a b"));
    assert_eq!(trim_string("\u{3000}x\u{a0}"), s("x"));
    assert_eq!(trim_string("   "), s(""));
    assert_eq!(trim_string("abc"), s("abc"));
}

#[test]
fn remove_all_scans_left_to_right() {
    assert_eq!(remove_all_str("room/room/x", "room/"), s("x"));
    assert_eq!(remove_all_str("aaa", "aa"), s("a"));
    assert_eq!(remove_all_str("a/b/c", "/"), s("abc"));
}

#[test]
fn split_whitespace_keeps_words() {
    assert_eq!(split_whitespace("  bob  carol\tdave "), vec![s("bob"), s("carol"), s("dave")]);
    assert!(split_whitespace("   ").is_empty());
}
