use scheval::{hashset_of_pathbuf, merge, Associations, FsPath, Schema};
use std::collections::{HashMap, HashSet};

fn as_map(assoc: &Associations) -> HashMap<Schema, HashSet<FsPath>> {
    assoc
        .entries()
        .iter()
        .map(|e| (e.schema.clone(), e.instances.iter().cloned().collect()))
        .collect()
}

fn local(p: &str) -> Schema {
    Schema::Local(FsPath::parse(p))
}

fn mapping(entries: &[(Schema, &[&str])]) -> Associations {
    let mut a = Associations::new();
    for (schema, paths) in entries {
        a.add(schema.clone(), &hashset_of_pathbuf(paths));
    }
    a
}

fn sample() -> Associations {
    mapping(&[
        (local("s.json"), &["a.json", "b.json"]),
        (Schema::Inline("{}".to_string()), &[".cfg"]),
        (local("t.json"), &[]),
    ])
}

#[test]
fn merge_of_a_mapping_twice_equals_merge_once() {
    let twice = merge(vec![sample(), sample()]);
    let once = merge(vec![sample()]);
    assert_eq!(as_map(&twice), as_map(&once));
    assert_eq!(as_map(&once), as_map(&sample()));
    assert_eq!(twice.entries().len(), 3);
}

#[test]
fn merge_unions_instances_per_schema() {
    let a = mapping(&[(local("s.json"), &["a.json"])]);
    let b = mapping(&[(local("s.json"), &["b.json", "a.json"]), (local("u.json"), &["c.json"])]);
    let merged = merge(vec![a, b]);
    let expected: HashMap<Schema, HashSet<FsPath>> = [
        (local("s.json"), hashset_of_pathbuf(&["a.json", "b.json"]).into_iter().collect()),
        (local("u.json"), hashset_of_pathbuf(&["c.json"]).into_iter().collect()),
    ]
    .into();
    assert_eq!(as_map(&merged), expected);
}

#[test]
fn merge_order_does_not_matter() {
    let a = || mapping(&[(local("s.json"), &["a.json"]), (local("v.json"), &["v.json"])]);
    let b = || mapping(&[(local("s.json"), &["b.json"])]);
    assert_eq!(as_map(&merge(vec![a(), b()])), as_map(&merge(vec![b(), a()])));
}

#[test]
fn merge_of_nothing_is_empty() {
    assert!(merge(vec![]).entries().is_empty());
}

#[test]
fn add_keeps_each_path_once() {
    let mut a = Associations::new();
    a.add(local("s.json"), &vec![FsPath::parse("x.json"), FsPath::parse("x.json")]);
    a.add(local("s.json"), &vec![FsPath::parse("./x.json")]);
    assert_eq!(a.entries().len(), 1);
    assert_eq!(a.entries()[0].instances.len(), 1);
}

#[test]
fn extend_adds_every_entry() {
    let mut a = mapping(&[(local("s.json"), &["a.json"])]);
    a.extend(mapping(&[(local("s.json"), &["b.json"]), (Schema::Inline("{}".to_string()), &[])]));
    let expected: HashMap<Schema, HashSet<FsPath>> = [
        (local("s.json"), hashset_of_pathbuf(&["a.json", "b.json"]).into_iter().collect()),
        (Schema::Inline("{}".to_string()), HashSet::new()),
    ]
    .into();
    assert_eq!(as_map(&a), expected);
}
