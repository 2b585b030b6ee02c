use lazy_filer::actions::renderer::FileType;
use lazy_filer::actions::renderer::Metadata;
use lazy_filer::actions::utils::fresh_file;
use lazy_filer::fs::DirProbe;
use lazy_filer::fs::Entries;
use lazy_filer::fs::File;
use lazy_filer::fs::Permissions;
use lazy_filer::fs::RootFile;
use lazy_filer::path::Component;
use lazy_filer::path::FsPath;

fn p(s: &str) -> FsPath {
    FsPath::parse(s.as_bytes()).expect("an absolute path")
}

fn n(s: &str) -> Component {
    Component::from_slice(s.as_bytes())
}

fn perms(read: bool, write: bool, execute: bool) -> Permissions {
    Permissions { read, write, execute }
}

fn node(kind: FileType) -> File {
    fresh_file(Metadata { perm: perms(true, false, false), file_type: kind })
}

fn probes(path: &FsPath) -> Vec<DirProbe> {
    let mut out = Vec::new();
    for _ in 0..path.len() {
        out.push(DirProbe { is_symlink: false, perm: perms(true, true, true) });
    }
    out
}

fn names(entries: &Entries) -> Vec<String> {
    let mut out = Vec::new();
    for i in 0..entries.len() {
        out.push(String::from_utf8(entries.name_at(i).as_bytes().clone()).unwrap());
    }
    out
}

fn listing(items: &[(&str, FileType)]) -> Entries {
    let mut out = Entries::new();
    for (name, kind) in items {
        out.insert(n(name), node(*kind));
    }
    out
}

#[test]
fn new_entries_are_empty() {
    assert_eq!(Entries::new().len(), 0);
    assert_eq!(Entries::default().len(), 0);
    assert!(Entries::new().get(&n("a")).is_none());
}

#[test]
fn insert_keeps_the_names_in_order() {
    let e = listing(&[
        ("m", FileType::Regular),
        ("a", FileType::Regular),
        ("z", FileType::Directory),
        ("b", FileType::Other),
    ]);
    assert_eq!(names(&e), vec!["a", "b", "m", "z"]);
    assert!(matches!(e.get(&n("z")), Some(File::Directory { .. })));
    assert!(matches!(e.get(&n("b")), Some(File::Other)));
    assert!(e.get(&n("c")).is_none());
}

#[test]
fn insert_under_a_used_name_replaces() {
    let mut e = listing(&[("a", FileType::Regular), ("b", FileType::Regular)]);
    e.insert(n("a"), node(FileType::Directory));
    assert_eq!(e.len(), 2);
    assert!(matches!(e.get(&n("a")), Some(File::Directory { .. })));
    assert!(matches!(e.get(&n("b")), Some(File::Regular { .. })));
}

#[test]
fn remove_hands_out_the_child() {
    let mut e = listing(&[("a", FileType::Regular), ("b", FileType::Directory)]);
    assert!(matches!(e.remove(&n("b")), Some(File::Directory { .. })));
    assert_eq!(names(&e), vec!["a"]);
    assert!(e.remove(&n("b")).is_none());
    assert_eq!(names(&e), vec!["a"]);
}

#[test]
fn clear_hands_out_all_children() {
    let mut e = listing(&[("a", FileType::Regular), ("b", FileType::Directory)]);
    let former = e.clear();
    assert_eq!(e.len(), 0);
    assert_eq!(names(&former), vec!["a", "b"]);
}

#[test]
fn follow_link_goes_to_the_end_of_the_chain() {
    let end = File::regular(0o600);
    let chain = File::Link { to: Box::new(File::Link { to: Box::new(end) }) };
    assert!(matches!(chain.follow_link(), File::Regular { .. }));
    assert!(matches!(File::Other.follow_link(), File::Other));
    assert!(matches!(chain.follow_link_owned(), File::Regular { .. }));
}

#[test]
fn follow_link_mut_changes_the_end_of_the_chain() {
    let mut chain = File::Link { to: Box::new(File::Link { to: Box::new(File::Other) }) };
    *chain.follow_link_mut() = File::regular(0o400);
    match chain {
        File::Link { to } => match *to {
            File::Link { to } => assert!(matches!(*to, File::Regular { perm } if perm.read)),
            _ => panic!("the chain lost a link"),
        },
        _ => panic!("the chain lost a link"),
    }
}

#[test]
fn regular_and_empty_directory_take_the_owner_bits() {
    match File::regular(0o640) {
        File::Regular { perm } => assert_eq!(perm, perms(true, true, false)),
        _ => panic!("not a regular file"),
    }
    match File::empty_directory(0o500) {
        File::Directory { entries, perm } => {
            assert_eq!(perm, perms(true, false, true));
            assert_eq!(entries.len(), 0);
        },
        _ => panic!("not a directory"),
    }
}

#[test]
fn fresh_file_builds_each_kind() {
    assert!(matches!(node(FileType::Regular), File::Regular { .. }));
    assert!(matches!(node(FileType::Directory), File::Directory { .. }));
    assert!(matches!(node(FileType::Other), File::Other));
    match node(FileType::LinkRegular) {
        File::Link { to } => assert!(matches!(*to, File::Regular { .. })),
        _ => panic!("not a link"),
    }
    match node(FileType::LinkDirectory) {
        File::Link { to } => assert!(matches!(*to, File::Directory { .. })),
        _ => panic!("not a link"),
    }
    match node(FileType::LinkOther) {
        File::Link { to } => assert!(matches!(*to, File::Other)),
        _ => panic!("not a link"),
    }
}

#[test]
fn reconcile_drops_what_left_the_disk_and_adds_what_came() {
    let mut cached = listing(&[
        ("gone", FileType::Regular),
        ("kept", FileType::Regular),
    ]);
    cached.update_with_readdir(listing(&[("kept", FileType::Regular), ("new", FileType::Directory)]));
    assert_eq!(names(&cached), vec!["kept", "new"]);
    assert!(matches!(cached.get(&n("new")), Some(File::Directory { .. })));
}

#[test]
fn reconcile_keeps_the_cached_children_of_a_directory() {
    let mut cached = Entries::new();
    let mut sub = Entries::new();
    sub.insert(n("inner"), node(FileType::Regular));
    cached.insert(n("x"), File::Directory { entries: sub, perm: perms(false, false, false) });
    cached.update_with_readdir(listing(&[("x", FileType::Directory)]));
    match cached.get(&n("x")) {
        Some(File::Directory { entries, perm }) => {
            assert_eq!(names(entries), vec!["inner"]);
            assert_eq!(*perm, perms(true, false, false));
        },
        _ => panic!("the directory is gone"),
    }
}

#[test]
fn reconcile_keeps_the_cached_children_behind_a_link() {
    let mut cached = Entries::new();
    let mut sub = Entries::new();
    sub.insert(n("inner"), node(FileType::Regular));
    cached.insert(
        n("x"),
        File::Link {
            to: Box::new(File::Directory { entries: sub, perm: perms(false, false, false) }),
        },
    );
    cached.update_with_readdir(listing(&[("x", FileType::LinkDirectory)]));
    match cached.get(&n("x")) {
        Some(File::Link { to }) => match &**to {
            File::Directory { entries, perm } => {
                assert_eq!(names(entries), vec!["inner"]);
                assert_eq!(*perm, perms(true, false, false));
            },
            _ => panic!("the link leads elsewhere"),
        },
        _ => panic!("the link is gone"),
    }
}

#[test]
fn reconcile_replaces_what_changed_its_kind() {
    let mut cached = Entries::new();
    let mut sub = Entries::new();
    sub.insert(n("inner"), node(FileType::Regular));
    cached.insert(n("x"), File::Directory { entries: sub, perm: perms(true, true, true) });
    cached.insert(n("y"), node(FileType::LinkDirectory));
    cached.update_with_readdir(listing(&[("x", FileType::Regular), ("y", FileType::LinkRegular)]));
    assert!(matches!(cached.get(&n("x")), Some(File::Regular { .. })));
    match cached.get(&n("y")) {
        Some(File::Link { to }) => assert!(matches!(**to, File::Regular { .. })),
        _ => panic!("the link is gone"),
    }
}

#[test]
fn reconcile_with_an_empty_directory_empties_the_cache() {
    let mut cached = listing(&[("a", FileType::Regular)]);
    cached.update_with_readdir(Entries::new());
    assert_eq!(cached.len(), 0);
}

#[test]
fn get_entries_makes_the_directories_on_the_way() {
    let mut root = RootFile::new();
    let dir = p("/home/user/src");
    assert!(root.can_resolve(&dir));
    assert!(root.find(&dir).is_none());
    {
        let entries = root.get_entries(&dir, &probes(&dir));
        assert_eq!(entries.len(), 0);
        entries.insert(n("main.rs"), node(FileType::Regular));
    }
    assert_eq!(names(root.find(&p("/")).unwrap()), vec!["home"]);
    assert_eq!(names(root.find(&p("/home")).unwrap()), vec!["user"]);
    assert_eq!(names(root.find(&p("/home/user")).unwrap()), vec!["src"]);
    assert_eq!(names(root.find(&dir).unwrap()), vec!["main.rs"]);
    assert!(root.find(&p("/home/other")).is_none());
}

#[test]
fn get_entries_takes_kind_and_permissions_from_the_probes() {
    let mut root = RootFile::new();
    let dir = p("/a/b");
    let given = vec![
        DirProbe { is_symlink: true, perm: perms(true, false, true) },
        DirProbe { is_symlink: false, perm: perms(false, true, false) },
    ];
    root.get_entries(&dir, &given);
    match root.find(&p("/")).unwrap().get(&n("a")) {
        Some(File::Link { to }) => match &**to {
            File::Directory { perm, entries } => {
                assert_eq!(*perm, perms(true, false, true));
                match entries.get(&n("b")) {
                    Some(File::Directory { perm, entries }) => {
                        assert_eq!(*perm, perms(false, true, false));
                        assert_eq!(entries.len(), 0);
                    },
                    _ => panic!("the inner directory is missing"),
                }
            },
            _ => panic!("the link does not lead to a directory"),
        },
        _ => panic!("the link is missing"),
    }
}

#[test]
fn get_entries_leaves_what_is_cached() {
    let mut root = RootFile::new();
    root.get_entries(&p("/a"), &probes(&p("/a"))).insert(n("keep"), node(FileType::Regular));
    let entries = root.get_entries(&p("/a"), &probes(&p("/a")));
    assert_eq!(names(entries), vec!["keep"]);
}

#[test]
fn get_entries_of_the_root_is_the_top_level() {
    let mut root = RootFile::new();
    root.get_entries(&p("/"), &Vec::new()).insert(n("etc"), node(FileType::Directory));
    assert_eq!(names(root.find(&p("/")).unwrap()), vec!["etc"]);
    assert_eq!(root.find(&p("/etc")).unwrap().len(), 0);
}

#[test]
fn a_file_on_the_way_cannot_be_resolved() {
    let mut root = RootFile::new();
    root.get_entries(&p("/a"), &probes(&p("/a"))).insert(n("file"), node(FileType::Regular));
    assert!(!root.can_resolve(&p("/a/file/below")));
    assert!(!root.can_resolve(&p("/a/file")));
    assert!(root.can_resolve(&p("/a/other/below")));
    assert!(root.can_resolve(&p("/a")));
    assert!(root.find(&p("/a/file")).is_none());
}

#[test]
fn a_link_to_a_directory_on_the_way_is_followed() {
    let mut root = RootFile::new();
    root.get_entries(&p("/a"), &probes(&p("/a"))).insert(n("l"), node(FileType::LinkDirectory));
    assert!(root.can_resolve(&p("/a/l/below")));
    root.get_entries(&p("/a/l"), &probes(&p("/a/l"))).insert(n("f"), node(FileType::Regular));
    assert_eq!(names(root.find(&p("/a/l")).unwrap()), vec!["f"]);
    assert!(matches!(root.find(&p("/a")).unwrap().get(&n("l")), Some(File::Link { .. })));
}

#[test]
fn dir_entries_of_a_file_is_none() {
    assert!(File::regular(0o600).dir_entries().is_none());
    assert!(File::Other.dir_entries().is_none());
    assert!(node(FileType::LinkOther).dir_entries().is_none());
    assert!(node(FileType::LinkDirectory).dir_entries().is_some());
    assert!(File::empty_directory(0o700).dir_entries().is_some());
}

#[test]
fn merge_keeps_children_and_takes_new_permissions() {
    let mut sub = Entries::new();
    sub.insert(n("inner"), node(FileType::Regular));
    let old = File::Directory { entries: sub, perm: perms(false, false, false) };
    match old.merge(File::empty_directory(0o700)) {
        File::Directory { entries, perm } => {
            assert_eq!(entries.len(), 1);
            assert_eq!(perm, perms(true, true, true));
        },
        _ => panic!("not a directory"),
    }
    assert!(matches!(File::regular(0o600).merge(File::Other), File::Other));
    assert!(matches!(File::Other.merge(File::regular(0o600)), File::Regular { .. }));
}
