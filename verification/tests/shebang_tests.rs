use linguist::shebang::{determine_multiline_exec, shebang_interpreter};

#[test]
fn plain_interpreter() {
    assert_eq!(shebang_interpreter("#!/bin/bash\necho hi\n"), Some("bash".to_string()));
}

#[test]
fn no_shebang_at_all() {
    assert_eq!(shebang_interpreter("echo hi\n"), None);
}

#[test]
fn empty_shebang_line_is_none() {
    assert_eq!(shebang_interpreter("#!\n"), None);
    assert_eq!(shebang_interpreter("#!   \n"), None);
}

#[test]
fn env_with_options_takes_the_command() {
    assert_eq!(
        shebang_interpreter("#!/usr/bin/env -S node --experimental\n"),
        Some("node".to_string())
    );
}

#[test]
fn env_alone_is_none() {
    assert_eq!(shebang_interpreter("#!/usr/bin/env\n"), None);
}

#[test]
fn env_with_plain_command() {
    assert_eq!(shebang_interpreter("#!/usr/bin/env python3\n"), Some("python3".to_string()));
}

#[test]
fn python_version_is_truncated() {
    assert_eq!(shebang_interpreter("#!/usr/bin/python3.11\n"), Some("python3".to_string()));
}

#[test]
fn osascript_with_language_flag_is_untrusted() {
    assert_eq!(
        shebang_interpreter("#!/usr/bin/osascript -l JavaScript\n"),
        Some("".to_string())
    );
}

#[test]
fn osascript_without_flag_is_kept() {
    assert_eq!(shebang_interpreter("#!/usr/bin/osascript\n"), Some("osascript".to_string()));
}

#[test]
fn sh_follows_the_exec_line() {
    let content = "#!/bin/sh\nexec node \"$0\" \"$@\"\n";
    assert_eq!(shebang_interpreter(content), Some("node".to_string()));
}

#[test]
fn sh_without_exec_line_stays_sh() {
    let content = "#!/bin/sh\necho hi\n";
    assert_eq!(shebang_interpreter(content), Some("sh".to_string()));
}

#[test]
fn multiline_exec_scan_defaults_to_sh() {
    assert_eq!(determine_multiline_exec("echo one\necho two\n"), Some("sh".to_string()));
}

#[test]
fn multiline_exec_scan_captures_command() {
    assert_eq!(
        determine_multiline_exec("# comment\nexec ruby \"$0\" \"$@\"\n"),
        Some("ruby".to_string())
    );
}

#[test]
fn multiline_exec_scan_gives_up_after_five_lines() {
    let data = "a\nb\nc\nd\ne\nexec ruby \"$0\" \"$@\"\n";
    assert_eq!(determine_multiline_exec(data), Some("sh".to_string()));
}
