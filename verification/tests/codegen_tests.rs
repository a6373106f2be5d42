use linguist::codegen::{
    write_heuristic_definition, write_language_definition, Config, Definition, Kind, Location,
};
use linguist::resolver::{HeuristicRule, Language, Scope};

fn rust_language() -> Language {
    Language {
        parent: None,
        name: "Rust".to_string(),
        aliases: vec!["rust".to_string()],
        scope: Scope::Programming,
        extensions: vec!["rs".to_string()],
        filenames: vec![],
        interpreters: vec![],
        color: Some("#dea584".to_string()),
    }
}

#[test]
fn language_row_renders_exactly() {
    let row = write_language_definition(&rust_language());
    assert_eq!(
        row,
        "&StaticLanguage {parent: None, name: \"Rust\", aliases: Some(&[\"rust\"]), \
         scope: \"Programming\", extensions: Some(&[\"rs\"]), filenames: None, \
         interpreters: None, color: Some(\"#dea584\") }"
    );
}

#[test]
fn language_row_with_parent_and_empty_lists() {
    let lang = Language {
        parent: Some("XML".to_string()),
        name: "Ant Build System".to_string(),
        aliases: vec![],
        scope: Scope::Data,
        extensions: vec![],
        filenames: vec!["build.xml".to_string()],
        interpreters: vec![],
        color: None,
    };
    let row = write_language_definition(&lang);
    assert_eq!(
        row,
        "&StaticLanguage {parent: Some(\"XML\"), name: \"Ant Build System\", aliases: None, \
         scope: \"Data\", extensions: None, filenames: Some(&[\"build.xml\"]), \
         interpreters: None, color: None }"
    );
}

#[test]
fn heuristic_row_escapes_patterns() {
    let rule = HeuristicRule {
        language: "Objective-C".to_string(),
        extensions: vec!["h".to_string()],
        patterns: vec!["^\\s*@(interface|end)".to_string(), "say \"hi\"".to_string()],
    };
    let row = write_heuristic_definition(&rule);
    assert_eq!(
        row,
        "HeuristicRule {language: \"Objective-C\".to_string(), \
         extensions: vec![\"h\".to_string()], \
         patterns: vec![\"^\\\\s*@(interface|end)\".to_string(), \
         \"say \\\"hi\\\"\".to_string()] }"
    );
}

#[test]
fn config_collects_definitions() {
    let mut config = Config::new();
    assert_eq!(config.definitions().len(), 0);
    config.add_definition(Definition {
        name: "vendors.rs".to_string(),
        location: Location::Path("vendor.yml".to_string()),
        kind: Kind::Vendors,
    });
    config.set_out_path("out".to_string());
    assert_eq!(config.out_path(), "out");
    assert_eq!(config.definitions().len(), 1);
    assert_eq!(config.definitions()[0].kind, Kind::Vendors);
}

#[test]
fn generate_renders_a_vendor_table() {
    let mut config = Config::new();
    config.add_definition(Definition {
        name: "vendors.rs".to_string(),
        location: Location::Path("vendor.yml".to_string()),
        kind: Kind::Vendors,
    });
    let inputs = vec!["- \"^vendor/\"\n- \"skip(?<=this)\"\n".to_string()];
    let outs = config.generate(&inputs).unwrap();
    assert_eq!(outs.len(), 1);
    assert_eq!(outs[0].0, "vendors.rs");
    assert_eq!(outs[0].1, "pub static VENDORS: &[&str] = &[\n    r\"^vendor/\",\n];\n");
}

#[test]
fn generate_renders_a_language_table() {
    let mut config = Config::new();
    config.add_definition(Definition {
        name: "languages.rs".to_string(),
        location: Location::URL("https://example.invalid/languages.yml".to_string()),
        kind: Kind::Languages,
    });
    let inputs = vec!["C:\n  type: programming\n  extensions:\n  - \".c\"\n".to_string()];
    let outs = config.generate(&inputs).unwrap();
    assert_eq!(
        outs[0].1,
        "use linguist::embedded::StaticLanguage;\n\n\
         pub static LANGUAGES: &[&StaticLanguage] = &[\n    \
         &StaticLanguage {parent: None, name: \"C\", aliases: None, scope: \"Programming\", \
         extensions: Some(&[\"c\"]), filenames: None, interpreters: None, color: None },\n];\n"
    );
}

#[test]
fn generate_surfaces_loader_errors() {
    let mut config = Config::new();
    config.add_definition(Definition {
        name: "vendors.rs".to_string(),
        location: Location::Path("vendor.yml".to_string()),
        kind: Kind::Vendors,
    });
    let inputs = vec!["not a list".to_string()];
    assert!(config.generate(&inputs).is_err());
}
