use linguist::matcher::PathMatcher;
use linguist::utils::{
    documentation_patterns, has_shebang, is_binary, is_configuration, is_documentation, is_dotfile,
    is_generated, is_unsupported_regex_syntax, is_vendor,
};

#[test]
fn binary_detects_zero_byte() {
    assert!(is_binary(&[1u8, 2, 0, 3]));
}

#[test]
fn binary_clean_buffer_is_text() {
    assert!(!is_binary(&[1u8, 2, 3, 255]));
}

#[test]
fn binary_ignores_zero_after_probe_limit() {
    let mut data = vec![7u8; 8001];
    data[8000] = 0;
    assert!(!is_binary(&data));
}

#[test]
fn binary_stripping_zeros_clears_verdict() {
    let data = vec![65u8, 0, 66, 0, 67];
    assert!(is_binary(&data));
    let stripped: Vec<u8> = data.into_iter().filter(|b| *b != 0).collect();
    assert!(!is_binary(&stripped));
}

#[test]
fn configuration_extension_is_case_insensitive() {
    assert!(is_configuration("conf/app.JSON"));
    assert!(is_configuration("settings.toml"));
    assert!(!is_configuration("src/main.rs"));
    assert!(!is_configuration("noextension"));
}

#[test]
fn generated_extension_is_case_sensitive() {
    assert!(is_generated("ui/view.nib"));
    assert!(!is_generated("ui/view.NIB"));
    assert!(is_generated("w.xcworkspacedata"));
    assert!(!is_generated("plain.txt"));
}

#[test]
fn dotfile_is_a_dotted_last_segment() {
    assert!(is_dotfile(".bashrc"));
    assert!(is_dotfile("home/user/.gitignore"));
    assert!(!is_dotfile("."));
    assert!(!is_dotfile("src/main.rs"));
}

#[test]
fn unsupported_regex_marks() {
    assert!(is_unsupported_regex_syntax("(?<=foo)bar"));
    assert!(is_unsupported_regex_syntax("a*+"));
    assert!(is_unsupported_regex_syntax("back\\1ref"));
    assert!(!is_unsupported_regex_syntax("^plain[a-z]+$"));
}

#[test]
fn shebang_marker() {
    assert!(has_shebang(b"#!/bin/sh"));
    assert!(!has_shebang(b"#"));
    assert!(!has_shebang(b"no shebang"));
}

#[test]
fn documentation_matcher_accepts_doc_paths() {
    let matcher = PathMatcher::compile(documentation_patterns()).unwrap();
    assert!(is_documentation("docs/guide.md", &matcher));
    assert!(is_documentation("project/README.md", &matcher));
    assert!(!is_documentation("src/lib.rs", &matcher));
}

#[test]
fn vendor_matcher_uses_its_patterns() {
    let matcher = PathMatcher::compile(vec!["^vendor/".to_string()]).unwrap();
    assert!(is_vendor("vendor/lib.js", &matcher));
    assert!(!is_vendor("src/lib.js", &matcher));
}

#[test]
fn matcher_compile_rejects_bad_pattern() {
    assert!(PathMatcher::compile(vec!["(".to_string()]).is_err());
}
