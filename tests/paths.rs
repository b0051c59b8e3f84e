use scheval::{hashset_of_pathbuf, regularize, FsPath};

fn parts(p: &FsPath) -> Vec<&str> {
    p.parts.iter().map(|s| s.as_str()).collect()
}

#[test]
fn parse_drops_empty_and_dot_components() {
    let p = FsPath::parse("/a//b/./c/");
    assert!(p.absolute);
    assert_eq!(parts(&p), vec!["a", "b", "c"]);
    let q = FsPath::parse("./x/../y");
    assert!(!q.absolute);
    assert_eq!(parts(&q), vec!["x", "..", "y"]);
    assert!(FsPath::parse("").parts.is_empty());
}

#[test]
fn to_text_writes_the_path() {
    assert_eq!(FsPath::parse("/a/b").to_text(), "/a/b");
    assert_eq!(FsPath::parse("a/b.json").to_text(), "a/b.json");
    assert_eq!(FsPath::parse("/").to_text(), "/");
}

#[test]
fn join_reads_relative_paths_from_the_base() {
    let base = FsPath::parse("/base");
    assert_eq!(base.join(&FsPath::parse("a/b")), FsPath::parse("/base/a/b"));
    assert_eq!(base.join(&FsPath::parse("/abs")), FsPath::parse("/abs"));
}

#[test]
fn regularize_inside_base_is_relative_and_joins_back() {
    let base = FsPath::parse("/work/project");
    let p = FsPath::parse("/work/project/nested/x.json");
    let r = regularize(&base, &p);
    assert!(!r.absolute);
    assert_eq!(r.to_text(), "nested/x.json");
    assert_eq!(base.join(&r), p);
}

#[test]
fn regularize_outside_base_is_unchanged() {
    let base = FsPath::parse("/work/project");
    let p = FsPath::parse("/work/other/x.json");
    assert_eq!(regularize(&base, &p), p);
    let prefix_of_name = FsPath::parse("/work/projectx/y.json");
    assert_eq!(regularize(&base, &prefix_of_name), prefix_of_name);
}

#[test]
fn regularize_base_itself_is_empty() {
    let base = FsPath::parse("/work");
    let r = regularize(&base, &base);
    assert!(!r.absolute);
    assert!(r.parts.is_empty());
}

#[test]
fn same_compares_components() {
    assert!(FsPath::parse("/a/b").same(&FsPath::parse("/a//b/")));
    assert!(!FsPath::parse("/a/b").same(&FsPath::parse("a/b")));
    assert!(!FsPath::parse("/a/b").same(&FsPath::parse("/a/c")));
}

#[test]
fn hashset_of_pathbuf_names_each_path_once() {
    let set = hashset_of_pathbuf(&["a/b", "a//b", "c"]);
    assert_eq!(set.len(), 2);
    assert!(set.contains(&FsPath::parse("a/b")));
    assert!(set.contains(&FsPath::parse("c")));
}
