use linguist::container::normalize_ext;
use linguist::text::{
    base_name_str, extension_of_str, join_with_str, lower_str, split_ws_str, str_contains_sub,
    str_eq_lower, str_starts_with,
};

#[test]
fn lowering_is_ascii_only() {
    assert_eq!(lower_str("AbC-123_Z"), "abc-123_z");
    assert_eq!(lower_str(""), "");
}

#[test]
fn case_insensitive_equality() {
    assert!(str_eq_lower("RuSt", "rUsT"));
    assert!(!str_eq_lower("rust", "ruby"));
}

#[test]
fn prefix_check() {
    assert!(str_starts_with("python3.11", "python"));
    assert!(!str_starts_with("py", "python"));
}

#[test]
fn substring_search() {
    assert!(str_contains_sub("osascript -l JavaScript", "-l"));
    assert!(!str_contains_sub("osascript", "-l"));
}

#[test]
fn base_name_takes_the_last_segment() {
    assert_eq!(base_name_str("a/b/c.rs"), "c.rs");
    assert_eq!(base_name_str("plain"), "plain");
    assert_eq!(base_name_str("trailing/"), "trailing");
    assert_eq!(base_name_str("a/b//"), "b");
}

#[test]
fn extension_follows_the_last_dot() {
    assert_eq!(extension_of_str("a/b/c.tar.gz"), Some("gz".to_string()));
    assert_eq!(extension_of_str("noext"), None);
    assert_eq!(extension_of_str(".bashrc"), None);
    assert_eq!(extension_of_str("dir.d/noext"), None);
    assert_eq!(extension_of_str("odd."), Some("".to_string()));
}

#[test]
fn whitespace_fields() {
    assert_eq!(
        split_ws_str("  /usr/bin/env \t -S  node\n"),
        vec!["/usr/bin/env".to_string(), "-S".to_string(), "node".to_string()]
    );
    assert_eq!(split_ws_str(" \t\n"), Vec::<String>::new());
}

#[test]
fn joining_with_a_separator() {
    let parts = vec!["a".to_string(), "b".to_string(), "c".to_string()];
    assert_eq!(join_with_str(&parts, "|"), "a|b|c");
    assert_eq!(join_with_str(&vec!["solo".to_string()], ", "), "solo");
    assert_eq!(join_with_str(&Vec::new(), "|"), "");
}

#[test]
fn extension_normalization() {
    assert_eq!(normalize_ext(".RS"), "rs");
    assert_eq!(normalize_ext("rs"), "rs");
    assert_eq!(normalize_ext(".tar.GZ"), "tar.gz");
}
