use lazy_filer::path::Component;
use lazy_filer::path::FsPath;

fn p(s: &str) -> FsPath {
    FsPath::parse(s.as_bytes()).expect("an absolute path")
}

fn n(s: &str) -> Component {
    Component::from_slice(s.as_bytes())
}

#[test]
fn component_keeps_its_bytes() {
    let c = n("file.txt");
    assert_eq!(c.as_bytes().as_slice(), b"file.txt");
    assert!(c.same(&n("file.txt")));
    assert!(!c.same(&n("file.tx")));
    assert!(c.clone().same(&c));
}

#[test]
fn names_are_ordered_byte_by_byte() {
    assert!(n("a").lt(&n("b")));
    assert!(!n("b").lt(&n("a")));
    assert!(!n("a").lt(&n("a")));
    assert!(n("a").lt(&n("ab")));
    assert!(!n("ab").lt(&n("a")));
    assert!(n("").lt(&n("a")));
    assert!(n("B").lt(&n("a")));
    assert!(n("a.b").lt(&n("ab")));
}

#[test]
fn parse_splits_on_separators() {
    let path = p("/usr/local/bin");
    assert_eq!(path.len(), 3);
    assert!(path.name(0).same(&n("usr")));
    assert!(path.name(1).same(&n("local")));
    assert!(path.name(2).same(&n("bin")));
}

#[test]
fn parse_of_root_is_empty() {
    assert_eq!(p("/").len(), 0);
    assert!(p("/").same(&FsPath::root()));
}

#[test]
fn parse_skips_empty_and_dot_segments() {
    assert!(p("//a///b/").same(&p("/a/b")));
    assert!(p("/a/./b/.").same(&p("/a/b")));
}

#[test]
fn parse_follows_parent_segments() {
    assert!(p("/a/b/../c").same(&p("/a/c")));
    assert!(p("/a/..").same(&p("/")));
    assert!(p("/../a").same(&p("/a")));
    assert!(p("/a/...").same(&p("/a").join(&n("..."))));
}

#[test]
fn parse_refuses_relative_text() {
    assert!(FsPath::parse(b"a/b").is_none());
    assert!(FsPath::parse(b"").is_none());
    assert!(FsPath::parse(b"./a").is_none());
}

#[test]
fn from_root_reads_relative_text_too() {
    assert!(FsPath::from_root(b"a/b").same(&p("/a/b")));
    assert!(FsPath::from_root(b"").same(&p("/")));
}

#[test]
fn to_bytes_writes_every_name_after_a_separator() {
    assert_eq!(p("/usr/local").to_bytes(), b"/usr/local".to_vec());
    assert_eq!(p("/").to_bytes(), b"/".to_vec());
    assert_eq!(p("//a//b/").to_bytes(), b"/a/b".to_vec());
}

#[test]
fn push_and_pop_change_the_last_name() {
    let mut path = p("/a");
    path.push(n("b"));
    assert!(path.same(&p("/a/b")));
    assert!(path.pop());
    assert!(path.pop());
    assert!(path.same(&p("/")));
    assert!(!path.pop());
    assert!(path.same(&p("/")));
}

#[test]
fn parent_and_file_name() {
    let path = p("/a/b/c");
    assert!(path.parent().unwrap().same(&p("/a/b")));
    assert!(path.file_name().unwrap().same(&n("c")));
    assert!(p("/a").parent().unwrap().same(&p("/")));
    assert!(p("/").parent().is_none());
    assert!(p("/").file_name().is_none());
}

#[test]
fn join_appends_one_name() {
    assert!(p("/a").join(&n("b")).same(&p("/a/b")));
    assert!(p("/").join(&n("x")).same(&p("/x")));
}

#[test]
fn starts_with_compares_whole_names() {
    assert!(p("/a/b/c").starts_with(&p("/a/b")));
    assert!(p("/a/b").starts_with(&p("/a/b")));
    assert!(p("/a/b").starts_with(&p("/")));
    assert!(!p("/a/bc").starts_with(&p("/a/b")));
    assert!(!p("/a").starts_with(&p("/a/b")));
    assert!(!p("/x/b").starts_with(&p("/a")));
}

#[test]
fn paths_are_ordered_name_by_name() {
    assert!(p("/a").lt(&p("/b")));
    assert!(p("/a").lt(&p("/a/b")));
    assert!(!p("/a/b").lt(&p("/a")));
    assert!(!p("/a").lt(&p("/a")));
    assert!(p("/a/z").lt(&p("/b/a")));
    assert!(p("/a/b").lt(&p("/a.b")));
    assert!(p("/").lt(&p("/a")));
}

#[test]
fn clone_gives_the_same_path() {
    let path = p("/one/two");
    assert_eq!(path.clone(), path);
}

#[test]
fn resolve_reads_a_relative_target_from_the_parent() {
    assert!(p("/a/b/old").resolve(b"new").same(&p("/a/b/new")));
    assert!(p("/a/b/old").resolve(b"sub/new").same(&p("/a/b/sub/new")));
    assert!(p("/a/b/old").resolve(b"../new").same(&p("/a/new")));
    assert!(p("/a/b/old").resolve(b"./new").same(&p("/a/b/new")));
    assert!(p("/a/b/old").resolve(b"../../../../new").same(&p("/new")));
    assert!(p("/a/b/old").resolve(b"").same(&p("/a/b")));
}

#[test]
fn resolve_reads_an_absolute_target_from_the_root() {
    assert!(p("/a/b/old").resolve(b"/x/y").same(&p("/x/y")));
    assert!(p("/a/b/old").resolve(b"/").same(&p("/")));
}

#[test]
fn resolve_at_the_root_stays_at_the_root() {
    assert!(p("/").resolve(b"x").same(&p("/x")));
}
