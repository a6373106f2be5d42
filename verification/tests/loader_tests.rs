use linguist::container::InMemoryLanguageContainer;
use linguist::embedded::StaticLanguage;
use linguist::error::LinguistError;
use linguist::github::{
    deserialize_strings, load_github_documentation, load_github_linguist_heuristics,
    load_github_linguist_languages, load_github_vendors,
};
use linguist::resolver::Scope;

const LANGUAGES_YML: &str = "\
Rust:
  type: programming
  color: \"#dea584\"
  extensions:
  - \".rs\"
  - \".RS\"
  aliases:
  - rust
Dockerfile:
  type: programming
  filenames:
  - Dockerfile
Ant Build System:
  type: data
  group: XML
  filenames:
  - build.xml
";

#[test]
fn languages_load_and_normalize() {
    let langs = load_github_linguist_languages(LANGUAGES_YML).unwrap();
    assert_eq!(langs.len(), 3);
    let rust = langs.iter().find(|l| l.name == "Rust").unwrap();
    assert_eq!(rust.scope, Scope::Programming);
    assert_eq!(rust.extensions, vec!["rs".to_string(), "rs".to_string()]);
    assert_eq!(rust.aliases, vec!["rust".to_string()]);
    assert_eq!(rust.color.as_deref(), Some("#dea584"));
    let ant = langs.iter().find(|l| l.name == "Ant Build System").unwrap();
    assert_eq!(ant.scope, Scope::Data);
    assert_eq!(ant.parent.as_deref(), Some("XML"));
}

#[test]
fn stored_extensions_are_well_formed() {
    let langs = load_github_linguist_languages(LANGUAGES_YML).unwrap();
    for l in &langs {
        for e in &l.extensions {
            assert!(!e.starts_with('.'));
            assert!(!e.chars().any(|c| c.is_ascii_uppercase()));
        }
    }
}

#[test]
fn registered_extensions_find_their_language_again() {
    let langs = load_github_linguist_languages(LANGUAGES_YML).unwrap();
    let mut c = InMemoryLanguageContainer::new();
    for l in &langs {
        c.register_language(l.clone());
    }
    for l in &langs {
        for e in &l.extensions {
            let probe = format!("x.{}", e);
            let found = c.get_languages_by_extension(probe.as_str()).unwrap();
            assert!(found.iter().any(|f| f.name == l.name));
        }
        for n in &l.filenames {
            let found = c.get_languages_by_filename(n.as_str()).unwrap();
            assert!(found.iter().any(|f| f.name == l.name));
        }
    }
}

#[test]
fn languages_reject_bad_yaml() {
    assert!(matches!(
        load_github_linguist_languages("not: [valid"),
        Err(LinguistError::DeserializationError)
    ));
    assert!(matches!(
        load_github_linguist_languages("Rust:\n  color: 1\n  type: programming\n"),
        Err(LinguistError::DeserializationError)
    ));
}

const HEURISTICS_YML: &str = "\
disambiguations:
- extensions: ['.h']
  rules:
  - language: Objective-C
    and:
    - named_pattern: objectivec
  - language: [C++, C]
    pattern:
    - \"^\\\\s*#include <(cstdint|string)>\"
    - \"template\\\\s*<\"
- extensions: ['.odd']
  rules:
  - language: Odd
    pattern: \"look(?<=behind)\"
named_patterns:
  objectivec: \"^\\\\s*(@interface|@end)\"
";

#[test]
fn heuristics_expand_named_patterns_and_blocks() {
    let rules = load_github_linguist_heuristics(HEURISTICS_YML).unwrap();
    assert_eq!(rules.len(), 2);
    assert_eq!(rules[0].language, "Objective-C");
    assert_eq!(rules[0].extensions, vec!["h".to_string()]);
    assert_eq!(rules[0].patterns, vec!["^\\s*(@interface|@end)".to_string()]);
    assert_eq!(rules[1].language, "");
    assert_eq!(
        rules[1].patterns,
        vec!["^\\s*#include <(cstdint|string)>|template\\s*<".to_string()]
    );
}

#[test]
fn heuristics_drop_unsupported_dialect_rules() {
    let rules = load_github_linguist_heuristics(HEURISTICS_YML).unwrap();
    assert!(rules.iter().all(|r| r.language != "Odd"));
}

#[test]
fn heuristics_reject_bad_yaml() {
    assert!(matches!(
        load_github_linguist_heuristics("disambiguations: 3\nnamed_patterns: {}\n"),
        Err(LinguistError::DeserializationError)
    ));
}

#[test]
fn vendors_keep_only_supported_patterns() {
    let vendors = load_github_vendors("- \"^vendor/\"\n- \"bad(?<=look)\"\n- \"^deps/\"\n")
        .unwrap();
    assert_eq!(vendors, vec!["^vendor/".to_string(), "^deps/".to_string()]);
}

#[test]
fn documentation_keeps_only_supported_patterns() {
    let docs = load_github_documentation("- \"^docs?/\"\n- \"a*+\"\n").unwrap();
    assert_eq!(docs, vec!["^docs?/".to_string()]);
}

#[test]
fn vendors_reject_bad_yaml() {
    assert!(matches!(load_github_vendors("not a list"), Err(LinguistError::DeserializationError)));
}

#[test]
fn deserialize_strings_is_unfiltered() {
    let all = deserialize_strings("- \"^vendor/\"\n- \"bad(?<=look)\"\n").unwrap();
    assert_eq!(all, vec!["^vendor/".to_string(), "bad(?<=look)".to_string()]);
}

#[test]
fn loaded_corpus_end_to_end() {
    let languages_yml = "\
C:
  type: programming
  extensions:
  - \".c\"
  - \".h\"
Objective-C:
  type: programming
  extensions:
  - \".m\"
  - \".h\"
";
    let heuristics_yml = "\
disambiguations:
- extensions: ['.h']
  rules:
  - language: objective-c
    and:
    - named_pattern: objc
named_patterns:
  objc: \"@(interface|end)\"
";
    let langs = load_github_linguist_languages(languages_yml).unwrap();
    let rules = load_github_linguist_heuristics(heuristics_yml).unwrap();
    let container = InMemoryLanguageContainer::build(langs, rules);
    assert!(container.check_heuristics_resolve());
    let content = linguist::resolver::FileContent {
        bytes: b"@interface Foo\n@end\n".to_vec(),
        text: Some("@interface Foo\n@end\n".to_string()),
    };
    let found = linguist::resolver::resolve_language("ambiguous.h", Some(&content), &container)
        .unwrap()
        .unwrap();
    assert_eq!(found.name, "Objective-C");
}

#[test]
fn static_language_round_trip() {
    let row = StaticLanguage {
        name: "Rust",
        scope: "programming",
        aliases: Some(&["rust"]),
        extensions: Some(&["rs"]),
        filenames: None,
        interpreters: None,
        color: Some("#dea584"),
        parent: None,
    };
    let lang = row.to_language();
    assert_eq!(lang.name, "Rust");
    assert_eq!(lang.scope, Scope::Programming);
    assert_eq!(lang.extensions, vec!["rs".to_string()]);
    assert_eq!(lang.filenames, Vec::<String>::new());
}

#[test]
fn embedded_record_round_trip() {
    let langs = load_github_linguist_languages(LANGUAGES_YML).unwrap();
    for l in &langs {
        let reloaded = l.to_record().to_language();
        assert_eq!(&reloaded, l);
    }
}
