use scheval::json::{nesting_within, MAX_NESTING};
use scheval::settings::{file_patterns, normalize_pattern, refused_file_patterns};
use scheval::{
    hashset_of_pathbuf, Associations, FsPath, Schema, SchemaSource, SettingsError, Skip, Vscode,
};
use std::collections::{HashMap, HashSet};

fn as_map(assoc: &Associations) -> HashMap<Schema, HashSet<FsPath>> {
    assoc
        .entries()
        .iter()
        .map(|e| (e.schema.clone(), e.instances.iter().cloned().collect()))
        .collect()
}

fn set_of(paths: &[&str]) -> HashSet<FsPath> {
    hashset_of_pathbuf(paths).into_iter().collect()
}

/// Compact JSON text with sorted keys, as inline schemas are held.
fn compact(text: &str) -> String {
    serde_json::from_str::<serde_json::Value>(text).unwrap().to_string()
}

/// The settings strategy over a settings text. Each schema file's canonical
/// path is taken to be its path; `matches` gives what each pattern matched,
/// relative to the base.
fn discover(base: &str, text: &str, matches: &dyn Fn(&str) -> Vec<&'static str>) -> Associations {
    let vscode = Vscode::with_base(FsPath::parse(base));
    let mut assoc = Associations::new();
    for outcome in vscode.definitions(text).unwrap() {
        let Ok(def) = outcome else { continue };
        let canonical = def.schema_file().cloned();
        let mut found: Vec<FsPath> = Vec::new();
        for pattern in &def.patterns {
            for m in matches(pattern) {
                found.push(vscode.base().join(&FsPath::parse(m)));
            }
        }
        vscode.record(&mut assoc, &def, canonical, &found);
    }
    assoc
}

const TEST_SETTINGS: &str = r#"{
    // Schemas for the test data
    "json.schemas": [
        {
            "fileMatch": ["*.foo.json"],
            "url": "./foo_schema.json",
        },
        {
            "fileMatch": [".myconfig"],
            "schema": {
                "type": "object",
                "properties": {
                    "name": {
                        "type": "string",
                        "description": "The name of the entry"
                    }
                }
            }
        },
        /* a root-relative path */
        {
            "fileMatch": ["receipts/*.json"],
            "url": "/receipts.schema.json"
        },
    ],
}"#;

fn test_data_matches(pattern: &str) -> Vec<&'static str> {
    match pattern {
        "*.foo.json" => vec!["nested1/nested2/abc.foo.json"],
        ".myconfig" => vec![".myconfig"],
        "receipts/*.json" => vec!["receipts/1.json", "receipts/2.json"],
        _ => vec![],
    }
}

#[test]
fn test_vscode() {
    let associations = discover("/work/tests/data", TEST_SETTINGS, &test_data_matches);
    let expected: HashMap<Schema, HashSet<FsPath>> = [
        (
            Schema::Local(FsPath::parse("foo_schema.json")),
            set_of(&["nested1/nested2/abc.foo.json"]),
        ),
        (
            Schema::Inline(compact(
                r#"{
                    "type": "object",
                    "properties": {
                        "name": {
                            "type": "string",
                            "description": "The name of the entry"
                        }
                    }
                }"#,
            )),
            set_of(&[".myconfig"]),
        ),
        (
            Schema::Local(FsPath::parse("receipts.schema.json")),
            set_of(&["receipts/1.json", "receipts/2.json"]),
        ),
    ]
    .into();
    assert_eq!(as_map(&associations), expected);
}

#[test]
fn settings_url_and_inline_give_two_associations() {
    let text = r#"{"json.schemas": [
        {"fileMatch": ["*.foo.json"], "url": "foo_schema.json"},
        {"fileMatch": [".myconfig"], "schema": {"type":"object"}}
    ]}"#;
    let matches = |p: &str| -> Vec<&'static str> {
        match p {
            "*.foo.json" => vec!["a.foo.json", "sub/b.foo.json"],
            ".myconfig" => vec![".myconfig"],
            _ => vec![],
        }
    };
    let associations = discover("/p", text, &matches);
    let expected: HashMap<Schema, HashSet<FsPath>> = [
        (
            Schema::Local(FsPath::parse("foo_schema.json")),
            set_of(&["a.foo.json", "sub/b.foo.json"]),
        ),
        (Schema::Inline("{\"type\":\"object\"}".to_string()), set_of(&[".myconfig"])),
    ]
    .into();
    assert_eq!(as_map(&associations), expected);
}

#[test]
fn parent_relative_pattern_is_dropped_and_siblings_kept() {
    let vscode = Vscode::with_base(FsPath::parse("/p"));
    let def = vscode
        .definition(r#"{"fileMatch": ["../x.json", "./a.json", 3, "b/*.json"], "url": "s.json"}"#)
        .unwrap();
    assert_eq!(def.patterns, vec!["a.json".to_string(), "b/*.json".to_string()]);
    assert_eq!(def.refused, vec![Some("../x.json".to_string()), None]);
    let items = vec![
        Some("../x.json".to_string()),
        Some("./a.json".to_string()),
        None,
        Some("b/*.json".to_string()),
    ];
    assert_eq!(file_patterns(&items), vec!["a.json".to_string(), "b/*.json".to_string()]);
    assert_eq!(refused_file_patterns(&items), vec![Some("../x.json".to_string()), None]);
}

#[test]
fn normalize_pattern_cases() {
    assert_eq!(normalize_pattern("./a.json"), Some("a.json".to_string()));
    assert_eq!(normalize_pattern("../a.json"), None);
    assert_eq!(normalize_pattern("a/*.json"), Some("a/*.json".to_string()));
    assert_eq!(normalize_pattern(".myconfig"), Some(".myconfig".to_string()));
    assert_eq!(normalize_pattern("./../a.json"), Some("../a.json".to_string()));
}

#[test]
fn urls_naming_one_file_merge_into_one_entry() {
    let text = r#"{"json.schemas": [
        {"fileMatch": ["a/*.json"], "url": "schema.json"},
        {"fileMatch": ["b/*.json"], "url": "/schema.json"},
        {"fileMatch": ["c/*.json"], "url": "./schema.json"}
    ]}"#;
    let matches = |p: &str| -> Vec<&'static str> {
        match p {
            "a/*.json" => vec!["a/1.json"],
            "b/*.json" => vec!["b/2.json", "a/1.json"],
            "c/*.json" => vec![],
            _ => vec![],
        }
    };
    let associations = discover("/p", text, &matches);
    let expected: HashMap<Schema, HashSet<FsPath>> = [(
        Schema::Local(FsPath::parse("schema.json")),
        set_of(&["a/1.json", "b/2.json"]),
    )]
    .into();
    assert_eq!(as_map(&associations), expected);
    assert_eq!(associations.entries().len(), 1);
    assert_eq!(associations.entries()[0].instances.len(), 2);
}

#[test]
fn remote_url_gives_no_association() {
    let text = r#"{"json.schemas": [
        {"fileMatch": ["*.json"], "url": "https://example.com/schema.json"},
        {"fileMatch": ["*.json"], "url": "http://example.com/schema.json"},
        {"fileMatch": ["x.json"], "url": "local.json"}
    ]}"#;
    let vscode = Vscode::with_base(FsPath::parse("/p"));
    let outcomes = vscode.definitions(text).unwrap();
    assert_eq!(outcomes.len(), 3);
    assert_eq!(outcomes[0].as_ref().unwrap_err(), &Skip::RemoteUrl);
    assert_eq!(outcomes[1].as_ref().unwrap_err(), &Skip::RemoteUrl);
    assert_eq!(outcomes[2].as_ref().unwrap().patterns, vec!["x.json".to_string()]);
    assert!(vscode.source_from_url("https://example.com/s.json").is_none());
    assert!(vscode.source_from_url("http://example.com/s.json").is_none());
    let matches = |_: &str| -> Vec<&'static str> { vec!["x.json"] };
    let associations = discover("/p", text, &matches);
    let expected: HashMap<Schema, HashSet<FsPath>> =
        [(Schema::Local(FsPath::parse("local.json")), set_of(&["x.json"]))].into();
    assert_eq!(as_map(&associations), expected);
}

#[test]
fn url_paths_are_read_from_the_base() {
    let vscode = Vscode::with_base(FsPath::parse("/p"));
    match vscode.source_from_url("/s/x.json") {
        Some(SchemaSource::File(f)) => assert_eq!(f, FsPath::parse("/p/s/x.json")),
        other => panic!("unexpected {:?}", other),
    }
    match vscode.source_from_url("y.json") {
        Some(SchemaSource::File(f)) => assert_eq!(f, FsPath::parse("/p/y.json")),
        other => panic!("unexpected {:?}", other),
    }
}

#[test]
fn malformed_entries_are_skipped() {
    let text = r#"{"json.schemas": [
        "not an object",
        {"url": "no_file_match.json"},
        {"fileMatch": "*.json", "url": "not_an_array.json"},
        {"fileMatch": ["*.json"], "url": 5},
        {"fileMatch": ["*.json"], "schema": "not an object"},
        {"fileMatch": ["*.json"]},
        {"fileMatch": ["kept.json"], "schema": {"b": 1, "a": true}}
    ]}"#;
    let vscode = Vscode::with_base(FsPath::parse("/p"));
    let outcomes = vscode.definitions(text).unwrap();
    let reasons: Vec<Option<Skip>> = outcomes.iter().map(|o| o.as_ref().err().copied()).collect();
    assert_eq!(
        reasons,
        vec![
            Some(Skip::NotObject),
            Some(Skip::NoFileMatch),
            Some(Skip::FileMatchNotArray),
            Some(Skip::UrlNotString),
            Some(Skip::SchemaNotObject),
            Some(Skip::NoSchema),
            None,
        ]
    );
    let kept = outcomes[6].as_ref().unwrap();
    assert_eq!(kept.patterns, vec!["kept.json".to_string()]);
    match &kept.schema {
        SchemaSource::Inline(t) => assert_eq!(t, "{\"a\":true,\"b\":1}"),
        other => panic!("unexpected {:?}", other),
    }
}

#[test]
fn unusable_settings_give_no_definitions() {
    let vscode = Vscode::with_base(FsPath::parse("/p"));
    assert_eq!(vscode.definitions("{ not json").unwrap_err(), SettingsError::Unparsable);
    assert_eq!(vscode.definitions("").unwrap_err(), SettingsError::Unparsable);
    assert_eq!(vscode.definitions("// only a comment").unwrap_err(), SettingsError::Unparsable);
    assert_eq!(vscode.definitions(r#"{"other": []}"#).unwrap_err(), SettingsError::NoSchemas);
    assert_eq!(
        vscode.definitions(r#"{"json.schemas": {"fileMatch": []}}"#).unwrap_err(),
        SettingsError::SchemasNotArray
    );
    assert_eq!(vscode.definitions("[1, 2]").unwrap_err(), SettingsError::NoSchemas);
    assert!(vscode.definitions(r#"{"json.schemas": []}"#).unwrap().is_empty());
}

#[test]
fn url_takes_precedence_over_schema() {
    let vscode = Vscode::with_base(FsPath::parse("/p"));
    let def = vscode
        .definition(r#"{"fileMatch": ["a"], "url": "s.json", "schema": {"type": "object"}}"#)
        .unwrap();
    match &def.schema {
        SchemaSource::File(f) => assert_eq!(f, &FsPath::parse("/p/s.json")),
        other => panic!("unexpected {:?}", other),
    }
    assert_eq!(
        vscode
            .definition(r#"{"fileMatch": ["a"], "url": 1, "schema": {"type": "object"}}"#)
            .unwrap_err(),
        Skip::UrlNotString
    );
}

#[test]
fn schema_file_that_did_not_canonicalize_is_skipped() {
    let vscode = Vscode::with_base(FsPath::parse("/p"));
    let def = vscode.definition(r#"{"fileMatch": ["a"], "url": "missing.json"}"#).unwrap();
    let mut assoc = Associations::new();
    vscode.record(&mut assoc, &def, None, &vec![FsPath::parse("/p/a")]);
    assert!(assoc.entries().is_empty());
}

#[test]
fn pattern_matching_nothing_still_names_its_schema() {
    let vscode = Vscode::with_base(FsPath::parse("/p"));
    let def = vscode.definition(r#"{"fileMatch": ["none/*"], "schema": {}}"#).unwrap();
    let mut assoc = Associations::new();
    vscode.record(&mut assoc, &def, None, &vec![]);
    let expected: HashMap<Schema, HashSet<FsPath>> =
        [(Schema::Inline("{}".to_string()), HashSet::new())].into();
    assert_eq!(as_map(&assoc), expected);
}

#[test]
fn settings_file_lies_under_the_base() {
    let vscode = Vscode::with_base(FsPath::parse("/p"));
    assert_eq!(vscode.settings_path(), FsPath::parse("/p/.vscode/settings.json"));
}

#[test]
fn deeply_nested_settings_are_refused_without_parsing() {
    let vscode = Vscode::with_base(FsPath::parse("/p"));
    let deep = "[".repeat(100_000);
    assert_eq!(vscode.definitions(&deep).unwrap_err(), SettingsError::TooDeep);
    let closed = format!("{}{}", "[".repeat(129), "]".repeat(129));
    assert_eq!(vscode.definitions(&closed).unwrap_err(), SettingsError::TooDeep);
    let nested = format!("{{\"json.schemas\": {}{}}}", "[".repeat(100), "]".repeat(100));
    assert_eq!(vscode.definitions(&nested).unwrap()[0].as_ref().unwrap_err(), &Skip::NotObject);
}

#[test]
fn brackets_in_strings_and_comments_do_not_nest() {
    let vscode = Vscode::with_base(FsPath::parse("/p"));
    let text = format!(
        "{{\"json.schemas\": [], \"x\": \"{}\" /* {} */}}\n// {}",
        "[".repeat(500),
        "{".repeat(500),
        "[".repeat(500)
    );
    assert!(vscode.definitions(&text).unwrap().is_empty());
}

#[test]
fn nesting_counts_open_brackets() {
    let kinds = |s: &str| -> Vec<char> { s.chars().collect() };
    assert!(nesting_within(&kinds("[ { } ]")));
    assert!(nesting_within(&kinds(&"]".repeat(1000))));
    assert!(nesting_within(&kinds(&"[]".repeat(1000))));
    assert!(nesting_within(&kinds(&"[".repeat(MAX_NESTING))));
    assert!(!nesting_within(&kinds(&"[".repeat(MAX_NESTING + 1))));
    assert!(!nesting_within(&kinds(&format!("{}{}", "{".repeat(MAX_NESTING), "[ ]"))));
}
