use linguist::container::InMemoryLanguageContainer;
use linguist::error::LinguistError;
use linguist::resolver::{
    resolve_language, resolve_language_by_content, resolve_languages_by_extension,
    resolve_languages_by_filename, resolve_languages_by_shebang, FileContent, HeuristicRule,
    Language, Scope,
};

fn lang(name: &str, exts: &[&str], files: &[&str], interps: &[&str]) -> Language {
    Language {
        parent: None,
        name: name.to_string(),
        aliases: vec![],
        scope: Scope::Programming,
        extensions: exts.iter().map(|e| e.to_string()).collect(),
        filenames: files.iter().map(|f| f.to_string()).collect(),
        interpreters: interps.iter().map(|i| i.to_string()).collect(),
        color: None,
    }
}

fn corpus() -> InMemoryLanguageContainer {
    let mut c = InMemoryLanguageContainer::new();
    c.register_language(lang("Rust", &["rs"], &[], &[]));
    c.register_language(lang("Dockerfile", &[], &["Dockerfile"], &[]));
    c.register_language(lang("Python", &["py"], &[], &["python", "python3"]));
    c.register_language(lang("C", &["h", "c"], &[], &[]));
    c.register_language(lang("C++", &["h", "cpp"], &[], &[]));
    c.register_language(lang("Objective-C", &["h", "m"], &[], &[]));
    c.register_language(lang("Nginx", &["vhost", "conf"], &[], &[]));
    c.register_heuristic_rule(
        "h".to_string(),
        HeuristicRule {
            language: "Objective-C".to_string(),
            extensions: vec!["h".to_string()],
            patterns: vec!["@interface ".to_string(), "@end".to_string()],
        },
    );
    c
}

fn text_content(text: &str) -> FileContent {
    FileContent { bytes: text.as_bytes().to_vec(), text: Some(text.to_string()) }
}

#[test]
fn extension_vote_alone_resolves_rust() {
    let c = corpus();
    let found = resolve_language("src/foo.rs", None, &c).unwrap().unwrap();
    assert_eq!(found.name, "Rust");
}

#[test]
fn filename_vote_alone_resolves_dockerfile() {
    let c = corpus();
    let found = resolve_language("Dockerfile", None, &c).unwrap().unwrap();
    assert_eq!(found.name, "Dockerfile");
}

#[test]
fn filename_vote_reaches_into_subdirectories() {
    let c = corpus();
    let found = resolve_language("services/api/Dockerfile", None, &c).unwrap().unwrap();
    assert_eq!(found.name, "Dockerfile");
}

#[test]
fn vhost_extension_resolves_nginx() {
    let c = corpus();
    let found = resolve_language("conf.d/site.vhost", None, &c).unwrap().unwrap();
    assert_eq!(found.name, "Nginx");
}

#[test]
fn shebang_vote_alone_resolves_python() {
    let c = corpus();
    let content = text_content("#!/usr/bin/env python3\nprint('hi')\n");
    let found = resolve_language("script", Some(&content), &c).unwrap().unwrap();
    assert_eq!(found.name, "Python");
}

#[test]
fn content_heuristic_breaks_the_header_tie() {
    let c = corpus();
    let content = text_content("#import <Foundation/Foundation.h>\n@interface Foo\n@end\n");
    let found = resolve_language("ambiguous.h", Some(&content), &c).unwrap().unwrap();
    assert_eq!(found.name, "Objective-C");
}

#[test]
fn binary_content_resolves_to_nothing() {
    let c = corpus();
    let content = FileContent { bytes: vec![102, 111, 0, 111], text: None };
    assert_eq!(resolve_language("src/foo.rs", Some(&content), &c).unwrap(), None);
}

#[test]
fn no_evidence_is_not_found() {
    let c = corpus();
    match resolve_language("mystery.zzz", None, &c) {
        Err(LinguistError::LanguageNotFound) => {},
        other => panic!("unexpected outcome: {:?}", other),
    }
}

#[test]
fn tied_votes_prefer_the_earlier_registration() {
    let mut c = InMemoryLanguageContainer::new();
    c.register_language(lang("First", &["tie"], &[], &[]));
    c.register_language(lang("Second", &["tie"], &[], &[]));
    let found = resolve_language("a.tie", None, &c).unwrap().unwrap();
    assert_eq!(found.name, "First");
}

#[test]
fn narrow_filename_resolver() {
    let c = corpus();
    let found = resolve_languages_by_filename("Dockerfile", &c).unwrap();
    assert_eq!(found[0].name, "Dockerfile");
    assert!(matches!(
        resolve_languages_by_filename("nothing", &c),
        Err(LinguistError::LanguageNotFound)
    ));
}

#[test]
fn narrow_extension_resolver() {
    let c = corpus();
    let found = resolve_languages_by_extension("x.h", &c).unwrap();
    let names: Vec<&str> = found.iter().map(|l| l.name.as_str()).collect();
    assert_eq!(names, vec!["C", "C++", "Objective-C"]);
}

#[test]
fn narrow_shebang_resolver_empty_line_is_ok_none() {
    let c = corpus();
    assert_eq!(resolve_languages_by_shebang("#!\n", &c).unwrap(), None);
}

#[test]
fn narrow_shebang_resolver_finds_interpreter() {
    let c = corpus();
    let found = resolve_languages_by_shebang("#!/usr/bin/python3.11\n", &c).unwrap().unwrap();
    assert_eq!(found[0].name, "Python");
}

#[test]
fn osascript_language_flag_casts_no_vote() {
    let mut c = corpus();
    c.register_language(lang("AppleScript", &["applescript"], &[], &["osascript"]));
    let line = "#!/usr/bin/osascript -l JavaScript\n";
    assert_eq!(resolve_languages_by_shebang(line, &c).unwrap(), None);
}

#[test]
fn content_resolver_first_matching_rule_wins() {
    let c = corpus();
    let found = resolve_language_by_content("x.h", "@interface Foo : NSObject\n", &c)
        .unwrap()
        .unwrap();
    assert_eq!(found.name, "Objective-C");
}

#[test]
fn content_resolver_without_match_is_not_found() {
    let c = corpus();
    assert!(matches!(
        resolve_language_by_content("x.h", "int main() {}\n", &c),
        Err(LinguistError::LanguageNotFound)
    ));
}
