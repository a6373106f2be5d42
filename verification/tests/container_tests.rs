use linguist::container::InMemoryLanguageContainer;
use linguist::resolver::{HeuristicRule, Language, Scope};

fn lang(name: &str, exts: &[&str], files: &[&str], interps: &[&str]) -> Language {
    Language {
        parent: None,
        name: name.to_string(),
        aliases: vec![],
        scope: Scope::Programming,
        extensions: exts.iter().map(|e| e.to_string()).collect(),
        filenames: files.iter().map(|f| f.to_string()).collect(),
        interpreters: interps.iter().map(|i| i.to_string()).collect(),
        color: None,
    }
}

fn sample() -> InMemoryLanguageContainer {
    let mut c = InMemoryLanguageContainer::new();
    c.register_language(lang("Rust", &["rs"], &[], &[]));
    c.register_language(lang("Dockerfile", &["dockerfile"], &["Dockerfile"], &[]));
    c.register_language(lang("Python", &["py"], &[], &["python", "python3"]));
    c
}

#[test]
fn name_lookup_is_case_insensitive() {
    let c = sample();
    assert_eq!(c.get_language_by_name("rUsT").unwrap().name, "Rust");
    assert!(c.get_language_by_name("Cobol").is_none());
}

#[test]
fn extension_lookup_normalizes() {
    let c = sample();
    let found = c.get_languages_by_extension("src/foo.RS").unwrap();
    assert_eq!(found.len(), 1);
    assert_eq!(found[0].name, "Rust");
}

#[test]
fn extension_lookup_falls_back_to_filename() {
    let c = sample();
    let found = c.get_languages_by_extension("build/dockerfile").unwrap();
    assert_eq!(found[0].name, "Dockerfile");
}

#[test]
fn extension_lookup_misses() {
    let c = sample();
    assert!(c.get_languages_by_extension("noidea.zzz").is_none());
}

#[test]
fn filename_lookup_is_exact() {
    let c = sample();
    let found = c.get_languages_by_filename("Dockerfile").unwrap();
    assert_eq!(found[0].name, "Dockerfile");
    assert!(c.get_languages_by_filename("dockerfile").is_none());
}

#[test]
fn filename_lookup_keys_on_the_last_segment() {
    let c = sample();
    let found = c.get_languages_by_filename("services/api/Dockerfile").unwrap();
    assert_eq!(found[0].name, "Dockerfile");
    assert!(c.get_languages_by_filename("Dockerfile/other").is_none());
}

#[test]
fn interpreter_lookup() {
    let c = sample();
    let found = c.get_languages_by_interpreter("python3").unwrap();
    assert_eq!(found[0].name, "Python");
    assert!(c.get_languages_by_interpreter("perl").is_none());
}

fn h_rule() -> HeuristicRule {
    HeuristicRule {
        language: "Objective-C".to_string(),
        extensions: vec!["h".to_string()],
        patterns: vec!["@interface".to_string()],
    }
}

#[test]
fn heuristics_lookup_by_extension() {
    let mut c = sample();
    c.register_heuristic_rule("h".to_string(), h_rule());
    let rules = c.get_heuristics_by_extension("ambiguous.h").unwrap();
    assert_eq!(rules.len(), 1);
    assert_eq!(rules[0].language, "Objective-C");
    assert!(c.get_heuristics_by_extension("noextension").is_none());
}

#[test]
fn duplicate_rule_is_suppressed() {
    let mut c = sample();
    c.register_heuristic_rule("h".to_string(), h_rule());
    c.register_heuristic_rule("h".to_string(), h_rule());
    let rules = c.get_heuristics_by_extension("x.h").unwrap();
    assert_eq!(rules.len(), 1);
}

#[test]
fn distinct_rules_accumulate_in_order() {
    let mut c = sample();
    let mut second = h_rule();
    second.language = "C++".to_string();
    c.register_heuristic_rule("h".to_string(), h_rule());
    c.register_heuristic_rule("h".to_string(), second);
    let rules = c.get_heuristics_by_extension("x.h").unwrap();
    assert_eq!(rules.len(), 2);
    assert_eq!(rules[0].language, "Objective-C");
    assert_eq!(rules[1].language, "C++");
}

#[test]
fn build_registers_everything_in_order() {
    let langs = vec![
        lang("C", &["h", "c"], &[], &[]),
        lang("C++", &["h", "cpp"], &[], &[]),
    ];
    let mut rule = h_rule();
    rule.extensions = vec!["h".to_string(), "hpp".to_string()];
    let c = InMemoryLanguageContainer::build(langs, vec![rule.clone(), rule.clone()]);
    let found = c.get_languages_by_extension("x.h").unwrap();
    assert_eq!(found.len(), 2);
    assert_eq!(found[0].name, "C");
    let rules_h = c.get_heuristics_by_extension("x.h").unwrap();
    let rules_hpp = c.get_heuristics_by_extension("x.hpp").unwrap();
    assert_eq!(rules_h.len(), 1);
    assert_eq!(rules_hpp.len(), 1);
}

#[test]
fn heuristics_resolution_check() {
    let mut c = sample();
    let mut rule = h_rule();
    rule.language = "rust".to_string();
    c.register_heuristic_rule("h".to_string(), rule);
    assert!(c.check_heuristics_resolve());
    let mut c2 = sample();
    c2.register_heuristic_rule("h".to_string(), h_rule());
    assert!(!c2.check_heuristics_resolve());
}
