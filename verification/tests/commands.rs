use lazy_filer::actions::create_entry::insert_position;
use lazy_filer::actions::create_entry::safe_fname;
use lazy_filer::actions::create_entry::CreateEntry;
use lazy_filer::actions::delete_entry::DeleteEntry;
use lazy_filer::actions::delete_entry::Entry;
use lazy_filer::actions::expand_dir::expand_dir;
use lazy_filer::actions::expand_dir::show_children;
use lazy_filer::actions::expand_dir::ExpandDir;
use lazy_filer::actions::expand_dir::Expansion;
use lazy_filer::actions::get_dir::GetDir;
use lazy_filer::actions::get_file_path::GetFilePath;
use lazy_filer::actions::move_to_parent::MoveToParent;
use lazy_filer::actions::new_filer::NewFiler;
use lazy_filer::actions::open_file::OpenFile;
use lazy_filer::actions::open_or_expand::Choice;
use lazy_filer::actions::open_or_expand::OpenOrExpand;
use lazy_filer::actions::refresh::Refresh;
use lazy_filer::actions::rename_entry::append_fname;
use lazy_filer::actions::rename_entry::is_common_ancestor;
use lazy_filer::actions::rename_entry::resolve;
use lazy_filer::actions::rename_entry::RenameEntry;
use lazy_filer::actions::renderer::FileType;
use lazy_filer::actions::renderer::Item;
use lazy_filer::actions::renderer::Level;
use lazy_filer::actions::renderer::LineIdx;
use lazy_filer::actions::renderer::Metadata;
use lazy_filer::actions::renderer::Patch;
use lazy_filer::actions::utils::fresh_file;
use lazy_filer::actions::DirArg;
use lazy_filer::fs::DirProbe;
use lazy_filer::fs::Entries;
use lazy_filer::fs::File;
use lazy_filer::fs::Permissions;
use lazy_filer::path::Component;
use lazy_filer::path::FsPath;
use lazy_filer::states::States;

fn p(s: &str) -> FsPath {
    FsPath::parse(s.as_bytes()).expect("an absolute path")
}

fn n(s: &str) -> Component {
    Component::from_slice(s.as_bytes())
}

fn perms(read: bool, write: bool, execute: bool) -> Permissions {
    Permissions { read, write, execute }
}

fn node(kind: FileType) -> File {
    fresh_file(Metadata { perm: perms(true, true, false), file_type: kind })
}

fn probes(path: &FsPath) -> Vec<DirProbe> {
    let mut out = Vec::new();
    for _ in 0..path.len() {
        out.push(DirProbe { is_symlink: false, perm: perms(true, true, true) });
    }
    out
}

fn disk(items: &[(&str, FileType)]) -> Entries {
    let mut out = Entries::new();
    for (name, kind) in items {
        out.insert(n(name), node(*kind));
    }
    out
}

fn row(level: usize, path: &str, kind: FileType) -> Item {
    Item {
        level: Level::from_num(level),
        path: p(path),
        metadata: Metadata { perm: perms(true, true, false), file_type: kind },
    }
}

fn shape(states: &States) -> Vec<(usize, String)> {
    states
        .actions
        .rendered_lines
        .rows()
        .iter()
        .map(|i| (i.level.to_num(), String::from_utf8(i.path.to_bytes()).unwrap()))
        .collect()
}

fn at(level: usize, path: &str) -> (usize, String) {
    (level, path.to_string())
}

fn lines(patch: &Patch) -> Vec<String> {
    patch.lines.iter().map(|i| String::from_utf8(i.path.to_bytes()).unwrap()).collect()
}

fn apply(view: &mut Vec<(usize, String)>, patch: &Patch) {
    let end = patch.end.unwrap_or(view.len());
    let new: Vec<(usize, String)> = patch
        .lines
        .iter()
        .map(|i| (i.level.to_num(), String::from_utf8(i.path.to_bytes()).unwrap()))
        .collect();
    view.splice(patch.start..end, new);
}

fn with_rows(rows: Vec<Item>) -> States {
    let mut states = States::new();
    states.actions.rendered_lines.edit().replace_all(rows);
    states
}

fn show(states: &mut States, dir: &str, on_disk: &[(&str, FileType)]) -> Patch {
    let filer = NewFiler { dir: DirArg::from(dir.to_string()) };
    let dir = filer.run().unwrap();
    filer.render_new(&dir, &probes(&dir), disk(on_disk), perms(true, false, true), states)
}

#[test]
fn dir_arg_names_an_absolute_directory() {
    assert_eq!(DirArg::from("/a/b".to_string()).as_path(), Some(p("/a/b")));
    assert_eq!(DirArg::from("/".to_string()).as_path(), Some(p("/")));
    assert_eq!(DirArg::from("a/b".to_string()).as_path(), None);
    assert_eq!(DirArg::from(String::new()).as_path(), None);
}

#[test]
fn new_filer_shows_the_directory_and_its_children() {
    let mut states = States::new();
    let patch = show(&mut states, "/r", &[("b", FileType::Directory), ("a", FileType::Regular)]);
    assert_eq!(shape(&states), vec![at(0, "/r"), at(1, "/r/a"), at(1, "/r/b")]);
    assert_eq!((patch.start, patch.end), (0, None));
    assert_eq!(lines(&patch), vec!["/r", "/r/a", "/r/b"]);
    let top = &states.actions.rendered_lines.rows()[0];
    assert_eq!(top.metadata.file_type, FileType::Directory);
    assert_eq!(top.metadata.perm, perms(true, false, true));
    assert!(NewFiler { dir: DirArg::from("r".to_string()) }.run().is_none());
}

#[test]
fn new_filer_warms_the_cache_below() {
    let mut states = States::new();
    show(&mut states, "/r", &[("b", FileType::Directory), ("a", FileType::Regular)]);
    let filer = NewFiler { dir: DirArg::from("/r".to_string()) };
    let dir = p("/r");
    let children = filer.children(&dir, &probes(&dir), &mut states);
    let dirs: Vec<FsPath> = children
        .0
        .iter()
        .filter(|(_, kind)| matches!(kind, FileType::Directory | FileType::LinkDirectory))
        .map(|(path, _)| path.clone())
        .collect();
    assert_eq!(dirs, vec![p("/r/b")]);
    filer.preload(&dirs[0], &probes(&dirs[0]), disk(&[("in", FileType::Regular)]), &mut states);
    let patch = filer.rerender(&dir, &probes(&dir), perms(true, true, true), &mut states);
    assert_eq!(shape(&states), vec![at(0, "/r"), at(1, "/r/a"), at(1, "/r/b")]);
    assert_eq!((patch.start, patch.end), (0, None));
    assert_eq!(states.root_file.find(&p("/r/b")).unwrap().len(), 1);
}

#[test]
fn queries_answer_for_the_row() {
    let mut states = States::new();
    show(&mut states, "/r", &[("b", FileType::Directory), ("a", FileType::Regular)]);
    assert_eq!(GetFilePath { line_idx: LineIdx::from(1) }.run(&states), Some(p("/r/a")));
    assert_eq!(GetFilePath { line_idx: LineIdx::from(-1) }.run(&states), Some(p("/r/b")));
    assert_eq!(GetFilePath { line_idx: LineIdx::from(3) }.run(&states), None);
    assert_eq!(GetDir { line_idx: LineIdx::from(1) }.run(&states), Some(p("/r")));
    assert_eq!(GetDir { line_idx: LineIdx::from(2) }.run(&states), Some(p("/r/b")));
    assert_eq!(GetDir { line_idx: LineIdx::from(0) }.run(&states), Some(p("/r")));
    assert_eq!(GetDir { line_idx: LineIdx::from(-4) }.run(&states), None);
}

#[test]
fn get_dir_of_a_file_at_the_root_is_none() {
    let states = with_rows(vec![row(0, "/", FileType::Regular)]);
    assert_eq!(GetDir { line_idx: LineIdx::from(0) }.run(&states), None);
}

#[test]
fn open_file_wants_a_regular_file() {
    let mut states = States::new();
    show(&mut states, "/r", &[("b", FileType::Directory), ("a", FileType::LinkRegular)]);
    assert_eq!(OpenFile { line_idx: LineIdx::from(1) }.run(&states), Some(p("/r/a")));
    assert_eq!(OpenFile { line_idx: LineIdx::from(2) }.run(&states), None);
    assert_eq!(OpenFile { line_idx: LineIdx::from(9) }.run(&states), None);
}

#[test]
fn open_or_expand_tells_files_from_directories() {
    let mut states = States::new();
    show(
        &mut states,
        "/r",
        &[("b", FileType::Directory), ("a", FileType::Regular), ("c", FileType::Other)],
    );
    match (OpenOrExpand { line_idx: LineIdx::from(1) }).run(&states) {
        Some(Choice::Regular(path)) => assert_eq!(path, p("/r/a")),
        _ => panic!("the file was not chosen"),
    }
    match (OpenOrExpand { line_idx: LineIdx::from(2) }).run(&states) {
        Some(Choice::Directory(level, path)) => {
            assert_eq!(level.to_num(), 1);
            assert_eq!(path, p("/r/b"));
        },
        _ => panic!("the directory was not chosen"),
    }
    assert!((OpenOrExpand { line_idx: LineIdx::from(3) }).run(&states).is_none());
    assert!((OpenOrExpand { line_idx: LineIdx::from(4) }).run(&states).is_none());
}

#[test]
fn expanding_reads_the_directory_and_shows_it_below_its_row() {
    let mut states = States::new();
    show(&mut states, "/r", &[("b", FileType::Directory), ("a", FileType::Regular), ("c", FileType::Regular)]);
    let mut view = shape(&states);
    let command = ExpandDir { line_idx: LineIdx::from(2) };
    let (level, path) = command.run(&states).unwrap();
    assert_eq!((level.to_num(), path.clone()), (1, p("/r/b")));
    assert!(matches!(expand_dir(&path, &mut states.actions), Expansion::NeedsListing));
    assert!(states.actions.expanded_dir.contains(&p("/r/b")));
    let patch = show_children(
        command.line_idx,
        level,
        &path,
        &probes(&path),
        disk(&[("y", FileType::Regular), ("x", FileType::Directory)]),
        &mut states,
    )
    .unwrap();
    assert_eq!(
        shape(&states),
        vec![at(0, "/r"), at(1, "/r/a"), at(1, "/r/b"), at(2, "/r/b/x"), at(2, "/r/b/y"), at(1, "/r/c")]
    );
    assert_eq!((patch.start, patch.end), (3, Some(3)));
    assert_eq!(lines(&patch), vec!["/r/b/x", "/r/b/y"]);
    apply(&mut view, &patch);
    assert_eq!(view, shape(&states));
}

#[test]
fn expanding_the_last_row_by_a_negative_index_shows_it_at_the_end() {
    let mut states = States::new();
    show(&mut states, "/r", &[("b", FileType::Directory), ("a", FileType::Regular)]);
    let command = ExpandDir { line_idx: LineIdx::from(-1) };
    let (level, path) = command.run(&states).unwrap();
    expand_dir(&path, &mut states.actions);
    let patch = show_children(
        command.line_idx,
        level,
        &path,
        &probes(&path),
        disk(&[("x", FileType::Regular)]),
        &mut states,
    )
    .unwrap();
    assert_eq!(shape(&states), vec![at(0, "/r"), at(1, "/r/a"), at(1, "/r/b"), at(2, "/r/b/x")]);
    assert_eq!((patch.start, patch.end), (3, Some(3)));
}

#[test]
fn expand_refuses_what_is_no_directory() {
    let mut states = States::new();
    show(&mut states, "/r", &[("a", FileType::Regular)]);
    assert!(ExpandDir { line_idx: LineIdx::from(1) }.run(&states).is_none());
    assert!(ExpandDir { line_idx: LineIdx::from(5) }.run(&states).is_none());
    assert!(ExpandDir { line_idx: LineIdx::from(0) }.run(&states).is_some());
}

#[test]
fn collapsing_takes_the_rows_below_off_the_display() {
    let mut states = States::new();
    show(&mut states, "/r", &[("b", FileType::Directory), ("a", FileType::Regular), ("c", FileType::Regular)]);
    let command = ExpandDir { line_idx: LineIdx::from(2) };
    let (level, path) = command.run(&states).unwrap();
    expand_dir(&path, &mut states.actions);
    show_children(
        command.line_idx,
        level,
        &path,
        &probes(&path),
        disk(&[("y", FileType::Regular), ("x", FileType::Directory)]),
        &mut states,
    );
    let mut view = shape(&states);
    match expand_dir(&path, &mut states.actions) {
        Expansion::Collapsed(patch) => {
            assert_eq!((patch.start, patch.end), (3, Some(5)));
            assert!(patch.lines.is_empty());
            apply(&mut view, &patch);
        },
        Expansion::NeedsListing => panic!("the directory was expanded"),
    }
    assert_eq!(shape(&states), vec![at(0, "/r"), at(1, "/r/a"), at(1, "/r/b"), at(1, "/r/c")]);
    assert_eq!(view, shape(&states));
    assert!(!states.actions.expanded_dir.contains(&p("/r/b")));
    assert_eq!(states.root_file.find(&p("/r/b")).unwrap().len(), 2);
}

#[test]
fn collapsing_what_has_no_rows_changes_nothing_on_display() {
    let mut states = with_rows(vec![row(0, "/r", FileType::Directory)]);
    states.actions.expanded_dir.insert(p("/x"));
    match expand_dir(&p("/x"), &mut states.actions) {
        Expansion::Collapsed(patch) => assert_eq!((patch.start, patch.end), (1, Some(1))),
        Expansion::NeedsListing => panic!("the directory was expanded"),
    }
    assert_eq!(shape(&states), vec![at(0, "/r")]);
}

#[test]
fn expanding_again_keeps_what_was_expanded_below() {
    let mut states = States::new();
    show(&mut states, "/r", &[("b", FileType::Directory)]);
    let outer = ExpandDir { line_idx: LineIdx::from(1) };
    let (level, path) = outer.run(&states).unwrap();
    expand_dir(&path, &mut states.actions);
    show_children(outer.line_idx, level, &path, &probes(&path), disk(&[("x", FileType::Directory)]), &mut states);
    let inner = ExpandDir { line_idx: LineIdx::from(2) };
    let (inner_level, inner_path) = inner.run(&states).unwrap();
    expand_dir(&inner_path, &mut states.actions);
    show_children(
        inner.line_idx,
        inner_level,
        &inner_path,
        &probes(&inner_path),
        disk(&[("deep", FileType::Regular)]),
        &mut states,
    );
    assert_eq!(
        shape(&states),
        vec![at(0, "/r"), at(1, "/r/b"), at(2, "/r/b/x"), at(3, "/r/b/x/deep")]
    );
    expand_dir(&path, &mut states.actions);
    assert_eq!(shape(&states), vec![at(0, "/r"), at(1, "/r/b")]);
    expand_dir(&path, &mut states.actions);
    show_children(outer.line_idx, level, &path, &probes(&path), disk(&[("x", FileType::Directory)]), &mut states);
    assert_eq!(
        shape(&states),
        vec![at(0, "/r"), at(1, "/r/b"), at(2, "/r/b/x"), at(3, "/r/b/x/deep")]
    );
}

#[test]
fn deleting_a_directory_removes_its_whole_block() {
    let mut states = with_rows(vec![
        row(0, "/a", FileType::Directory),
        row(1, "/a/b", FileType::Directory),
        row(2, "/a/b/c", FileType::Regular),
        row(1, "/a/d", FileType::Regular),
    ]);
    states.actions.expanded_dir.insert(p("/a"));
    states.actions.expanded_dir.insert(p("/a/b"));
    states.root_file.get_entries(&p("/"), &Vec::new()).insert(n("a"), node(FileType::Directory));
    let mut view = shape(&states);
    let command = DeleteEntry { line_idx: LineIdx::from(0) };
    let (is_link, entry) = command.run(&states).unwrap();
    assert!(!is_link);
    assert!(matches!(entry, Entry::Recursive { .. }));
    assert_eq!(entry.path(), &p("/a"));
    assert_eq!(entry.parent(), &p("/"));
    assert!(entry.removes_tree(is_link));
    let patch = command.commit(&entry, &probes(entry.parent()), &mut states).unwrap();
    assert!(shape(&states).is_empty());
    assert_eq!((patch.start, patch.end), (0, Some(4)));
    assert!(patch.lines.is_empty());
    assert!(!states.actions.expanded_dir.contains(&p("/a")));
    assert_eq!(states.root_file.find(&p("/")).unwrap().len(), 0);
    apply(&mut view, &patch);
    assert!(view.is_empty());
}

#[test]
fn deleting_a_file_removes_its_row() {
    let mut states = States::new();
    show(&mut states, "/r", &[("a", FileType::Regular), ("b", FileType::Regular)]);
    let command = DeleteEntry { line_idx: LineIdx::from(1) };
    let (is_link, entry) = command.run(&states).unwrap();
    assert!(!is_link);
    assert!(matches!(entry, Entry::Single { .. }));
    assert!(!entry.removes_tree(is_link));
    let patch = command.commit(&entry, &probes(entry.parent()), &mut states).unwrap();
    assert_eq!(shape(&states), vec![at(0, "/r"), at(1, "/r/b")]);
    assert_eq!((patch.start, patch.end), (1, Some(2)));
    assert!(states.root_file.find(&p("/r")).unwrap().get(&n("a")).is_none());
    assert!(states.root_file.find(&p("/r")).unwrap().get(&n("b")).is_some());
}

#[test]
fn deleting_a_link_to_a_directory_deletes_the_link() {
    let mut states = States::new();
    show(&mut states, "/r", &[("l", FileType::LinkDirectory), ("z", FileType::Regular)]);
    let command = DeleteEntry { line_idx: LineIdx::from(1) };
    let (is_link, entry) = command.run(&states).unwrap();
    assert!(is_link);
    assert!(matches!(entry, Entry::Recursive { .. }));
    assert!(!entry.removes_tree(is_link));
    command.commit(&entry, &probes(entry.parent()), &mut states);
    assert_eq!(shape(&states), vec![at(0, "/r"), at(1, "/r/z")]);
}

#[test]
fn delete_of_the_root_or_of_no_row_is_refused() {
    let states = with_rows(vec![row(0, "/", FileType::Directory)]);
    assert!(DeleteEntry { line_idx: LineIdx::from(0) }.run(&states).is_none());
    assert!(DeleteEntry { line_idx: LineIdx::from(1) }.run(&states).is_none());
}

#[test]
fn safe_fname_takes_the_last_name() {
    assert!(safe_fname(b"new.txt").same(&n("new.txt")));
    assert!(safe_fname(b"dir/").same(&n("dir")));
    assert!(safe_fname(b"a/b/c").same(&n("c")));
    assert!(safe_fname(b"/etc/passwd").same(&n("passwd")));
    assert!(safe_fname(b"").same(&n("")));
    assert!(safe_fname(b"..").same(&n("")));
}

#[test]
fn insert_position_is_before_the_first_row_that_is_not_before() {
    let lines = vec![
        row(0, "/d", FileType::Directory),
        row(1, "/d/a", FileType::Regular),
        row(1, "/d/b", FileType::Regular),
        row(1, "/d/z", FileType::Regular),
    ];
    assert_eq!(insert_position(&p("/d/m"), &lines), 3);
    assert_eq!(insert_position(&p("/d/0"), &lines), 1);
    assert_eq!(insert_position(&p("/d/zz"), &lines), 4);
    assert_eq!(insert_position(&p("/c"), &lines), 0);
    assert_eq!(insert_position(&p("/d/b"), &lines), 2);
    assert_eq!(insert_position(&p("/d"), &Vec::new()), 0);
}

#[test]
fn creating_a_file_inserts_its_row_in_order() {
    let mut states = States::new();
    show(
        &mut states,
        "/d",
        &[("a", FileType::Regular), ("b", FileType::Regular), ("z", FileType::Regular)],
    );
    let mut view = shape(&states);
    let command = CreateEntry { line_idx: LineIdx::from(0), fname: "m".to_string() };
    assert!(!command.is_directory());
    assert_eq!(command.mode(), 0o664);
    let entry = command.run(&states).unwrap();
    assert_eq!(entry.dir, p("/d"));
    assert_eq!(entry.file, p("/d/m"));
    assert_eq!(entry.level.to_num(), 1);
    let patch = command.commit(&entry, &probes(&entry.dir), &mut states);
    assert_eq!(
        shape(&states),
        vec![at(0, "/d"), at(1, "/d/a"), at(1, "/d/b"), at(1, "/d/m"), at(1, "/d/z")]
    );
    assert_eq!((patch.start, patch.end), (3, Some(3)));
    assert_eq!(lines(&patch), vec!["/d/m"]);
    apply(&mut view, &patch);
    assert_eq!(view, shape(&states));
    let new_row = &states.actions.rendered_lines.rows()[3];
    assert_eq!(new_row.metadata.file_type, FileType::Regular);
    assert_eq!(new_row.metadata.perm, perms(true, true, false));
    assert!(states.actions.expanded_dir.contains(&p("/d")));
    assert!(matches!(
        states.root_file.find(&p("/d")).unwrap().get(&n("m")),
        Some(File::Regular { .. })
    ));
}

#[test]
fn creating_next_to_a_file_uses_its_directory() {
    let mut states = States::new();
    show(&mut states, "/d", &[("a", FileType::Regular), ("z", FileType::Regular)]);
    let command = CreateEntry { line_idx: LineIdx::from(2), fname: "sub/".to_string() };
    assert!(command.is_directory());
    assert_eq!(command.mode(), 0o775);
    let entry = command.run(&states).unwrap();
    assert_eq!(entry.dir, p("/d"));
    assert_eq!(entry.file, p("/d/sub"));
    assert_eq!(entry.level.to_num(), 1);
    let patch = command.commit(&entry, &probes(&entry.dir), &mut states);
    assert_eq!(shape(&states), vec![at(0, "/d"), at(1, "/d/a"), at(1, "/d/sub"), at(1, "/d/z")]);
    assert_eq!((patch.start, patch.end), (2, Some(2)));
    let new_row = &states.actions.rendered_lines.rows()[2];
    assert_eq!(new_row.metadata.file_type, FileType::Directory);
    assert_eq!(new_row.metadata.perm, perms(true, true, true));
    assert!(matches!(
        states.root_file.find(&p("/d")).unwrap().get(&n("sub")),
        Some(File::Directory { .. })
    ));
}

#[test]
fn creating_after_the_last_row_appends() {
    let mut states = States::new();
    show(&mut states, "/d", &[("a", FileType::Regular)]);
    let command = CreateEntry { line_idx: LineIdx::from(0), fname: "zz".to_string() };
    let entry = command.run(&states).unwrap();
    let patch = command.commit(&entry, &probes(&entry.dir), &mut states);
    assert_eq!(shape(&states), vec![at(0, "/d"), at(1, "/d/a"), at(1, "/d/zz")]);
    assert_eq!((patch.start, patch.end), (2, Some(2)));
}

#[test]
fn create_without_a_row_is_refused() {
    let states = with_rows(vec![row(0, "/", FileType::Regular)]);
    assert!(CreateEntry { line_idx: LineIdx::from(0), fname: "x".to_string() }.run(&states).is_none());
    assert!(CreateEntry { line_idx: LineIdx::from(1), fname: "x".to_string() }.run(&states).is_none());
}

#[test]
fn rename_helpers() {
    assert!(is_common_ancestor(&p("/r"), &p("/r/x"), &p("/r/y/z")));
    assert!(!is_common_ancestor(&p("/r/x"), &p("/r/x"), &p("/r/y")));
    assert!(is_common_ancestor(&p("/"), &p("/a"), &p("/b")));
    assert_eq!(resolve(&p("/r/x"), b"y"), p("/r/y"));
    assert_eq!(resolve(&p("/r/x"), b"../q/y"), p("/q/y"));
    assert_eq!(resolve(&p("/r/x"), b"/t"), p("/t"));
    assert_eq!(append_fname(&p("/r/x"), p("/r/sub"), true), p("/r/sub/x"));
    assert_eq!(append_fname(&p("/r/x"), p("/r/sub"), false), p("/r/sub"));
    assert_eq!(append_fname(&p("/"), p("/r/sub"), true), p("/r/sub"));
}

fn expanded_tree() -> States {
    let mut states = States::new();
    show(&mut states, "/r", &[("x", FileType::Directory), ("w", FileType::Regular)]);
    states.actions.expanded_dir.insert(p("/r"));
    let command = ExpandDir { line_idx: LineIdx::from(2) };
    let (level, path) = command.run(&states).unwrap();
    expand_dir(&path, &mut states.actions);
    show_children(
        command.line_idx,
        level,
        &path,
        &probes(&path),
        disk(&[("f", FileType::Regular), ("sub", FileType::Directory)]),
        &mut states,
    );
    states
}

#[test]
fn renaming_within_a_directory_on_display_redraws_it() {
    let mut states = expanded_tree();
    assert_eq!(
        shape(&states),
        vec![at(0, "/r"), at(1, "/r/w"), at(1, "/r/x"), at(2, "/r/x/f"), at(2, "/r/x/sub")]
    );
    states.actions.expanded_dir.insert(p("/r/x/sub"));
    let mut view = shape(&states);
    let command = RenameEntry {
        line_idx: LineIdx::from(2),
        dir: DirArg::from("/r".to_string()),
        path: "y".to_string(),
    };
    let mut mv = command.run(&states).unwrap();
    assert_eq!(mv.old_path, p("/r/x"));
    assert_eq!(mv.new_path, p("/r/y"));
    mv.new_path = append_fname(&mv.old_path, mv.new_path, false);
    let old_parent = mv.old_path.parent().unwrap();
    let file = command.take(&mv, &probes(&old_parent), &mut states).unwrap();
    let new_parent = mv.new_path.parent().unwrap();
    let patch = command.place(&mv, file, &probes(&new_parent), &mut states).unwrap();
    assert!(states.actions.expanded_dir.contains(&p("/r/y")));
    assert!(!states.actions.expanded_dir.contains(&p("/r/x")));
    assert!(states.actions.expanded_dir.contains(&p("/r/y/sub")));
    assert!(!states.actions.expanded_dir.contains(&p("/r/x/sub")));
    assert!(states.actions.expanded_dir.contains(&p("/r")));
    let rows = shape(&states);
    assert_eq!(
        rows,
        vec![at(0, "/r"), at(1, "/r/w"), at(1, "/r/y"), at(2, "/r/y/f"), at(2, "/r/y/sub")]
    );
    assert!(states.actions.rendered_lines.rows().iter().all(|i| !i.path.starts_with(&p("/r/x"))));
    assert!(states.actions.rendered_lines.rows().iter().any(|i| i.path == p("/r/y")));
    assert_eq!((patch.start, patch.end), (1, Some(5)));
    apply(&mut view, &patch);
    assert_eq!(view, rows);
    assert_eq!(redraw(&mut states, "/r"), rows);
    let cached = states.root_file.find(&p("/r")).unwrap();
    assert!(cached.get(&n("x")).is_none());
    assert!(matches!(cached.get(&n("y")), Some(File::Directory { .. })));
    assert_eq!(states.root_file.find(&p("/r/y")).unwrap().len(), 2);
}

#[test]
fn renaming_below_the_top_level_keeps_the_row_of_the_directory() {
    let mut states = expanded_tree();
    let command = RenameEntry {
        line_idx: LineIdx::from(3),
        dir: DirArg::from("/r".to_string()),
        path: "g".to_string(),
    };
    let mv = command.run(&states).unwrap();
    assert_eq!(mv.new_path, p("/r/x/g"));
    let file = command.take(&mv, &probes(&p("/r/x")), &mut states).unwrap();
    let patch = command.place(&mv, file, &probes(&p("/r/x")), &mut states).unwrap();
    assert_eq!(
        shape(&states),
        vec![at(0, "/r"), at(1, "/r/w"), at(1, "/r/x"), at(2, "/r/x/g"), at(2, "/r/x/sub")]
    );
    assert_eq!((patch.start, patch.end), (3, Some(5)));
    assert_eq!(lines(&patch), vec!["/r/x/g", "/r/x/sub"]);
    let rows = shape(&states);
    assert_eq!(redraw(&mut states, "/r"), rows);
}

#[test]
fn renaming_into_a_deeper_directory_expands_the_way_to_it() {
    let mut states = expanded_tree();
    let command = RenameEntry {
        line_idx: LineIdx::from(1),
        dir: DirArg::from("/r".to_string()),
        path: "x/sub".to_string(),
    };
    let mut mv = command.run(&states).unwrap();
    assert_eq!(mv.new_path, p("/r/x/sub"));
    mv.new_path = append_fname(&mv.old_path, mv.new_path, true);
    assert_eq!(mv.new_path, p("/r/x/sub/w"));
    let file = command.take(&mv, &probes(&p("/r")), &mut states).unwrap();
    command.place(&mv, file, &probes(&p("/r/x/sub")), &mut states).unwrap();
    assert!(states.actions.expanded_dir.contains(&p("/r/x/sub")));
    assert!(states.actions.expanded_dir.contains(&p("/r/x")));
    assert!(states.actions.expanded_dir.contains(&p("/r")));
    assert!(!states.actions.expanded_dir.contains(&p("/r/x/sub/w")));
    let rows = shape(&states);
    assert_eq!(
        rows,
        vec![at(0, "/r"), at(1, "/r/x"), at(2, "/r/x/f"), at(2, "/r/x/sub"), at(3, "/r/x/sub/w")]
    );
    assert_eq!(redraw(&mut states, "/r"), rows);
}

#[test]
fn renaming_out_of_the_display_drops_the_rows() {
    let mut states = expanded_tree();
    let mut view = shape(&states);
    let command = RenameEntry {
        line_idx: LineIdx::from(2),
        dir: DirArg::from("/r".to_string()),
        path: "/elsewhere/x".to_string(),
    };
    let mv = command.run(&states).unwrap();
    assert_eq!(mv.new_path, p("/elsewhere/x"));
    let file = command.take(&mv, &probes(&p("/r")), &mut states).unwrap();
    let patch = command.place(&mv, file, &probes(&p("/elsewhere")), &mut states).unwrap();
    assert_eq!(shape(&states), vec![at(0, "/r"), at(1, "/r/w")]);
    assert_eq!((patch.start, patch.end), (2, Some(5)));
    assert!(patch.lines.is_empty());
    assert!(!states.actions.expanded_dir.contains(&p("/r/x")));
    assert!(!states.actions.expanded_dir.contains(&p("/elsewhere/x")));
    assert_eq!(states.root_file.find(&p("/elsewhere/x")).unwrap().len(), 2);
    apply(&mut view, &patch);
    assert_eq!(view, shape(&states));
}

#[test]
fn renaming_what_the_cache_does_not_know_takes_nothing() {
    let mut states = with_rows(vec![row(0, "/r", FileType::Directory), row(1, "/r/x", FileType::Regular)]);
    let command = RenameEntry {
        line_idx: LineIdx::from(1),
        dir: DirArg::from("/r".to_string()),
        path: "y".to_string(),
    };
    let mv = command.run(&states).unwrap();
    assert!(command.take(&mv, &probes(&p("/r")), &mut states).is_none());
    assert_eq!(shape(&states), vec![at(0, "/r"), at(1, "/r/x")]);
}

#[test]
fn rename_of_the_root_or_of_no_row_is_refused() {
    let states = with_rows(vec![row(0, "/", FileType::Directory)]);
    let command = |at: i64| RenameEntry {
        line_idx: LineIdx::from(at),
        dir: DirArg::from("/".to_string()),
        path: "y".to_string(),
    };
    assert!(command(0).run(&states).is_none());
    assert!(command(1).run(&states).is_none());
}

#[test]
fn the_ancestor_is_the_deepest_row_above_both_paths() {
    let states = expanded_tree();
    let command = RenameEntry {
        line_idx: LineIdx::from(3),
        dir: DirArg::from("/r".to_string()),
        path: String::new(),
    };
    let lines = states.actions.rendered_lines.rows();
    let got = command.ancestor(&p("/r/x/f"), &p("/r/x/g"), lines).unwrap();
    assert_eq!((got.0.to_num(), got.1), (1, p("/r/x")));
    let got = command.ancestor(&p("/r/x/f"), &p("/r/g"), lines).unwrap();
    assert_eq!((got.0.to_num(), got.1), (0, p("/r")));
    assert!(command.ancestor(&p("/r/x/f"), &p("/q/g"), lines).is_none());
    let outside = RenameEntry {
        line_idx: LineIdx::from(3),
        dir: DirArg::from("relative".to_string()),
        path: String::new(),
    };
    assert!(outside.ancestor(&p("/r/x/f"), &p("/r/x/g"), lines).is_none());
}

#[test]
fn move_to_parent_shows_the_directory_above() {
    let mut states = States::new();
    show(&mut states, "/r/sub", &[("a", FileType::Regular)]);
    let command = MoveToParent { dir: DirArg::from("/r/sub".to_string()) };
    let parent = command.run(&mut states.actions).unwrap();
    assert_eq!(parent, p("/r"));
    assert!(states.actions.expanded_dir.contains(&p("/r")));
    let patch = command.commit(
        &parent,
        &probes(&parent),
        disk(&[("sub", FileType::Directory), ("other", FileType::Regular)]),
        perms(true, true, true),
        &mut states,
    );
    assert_eq!(shape(&states), vec![at(0, "/r"), at(1, "/r/other"), at(1, "/r/sub")]);
    assert_eq!((patch.start, patch.end), (0, None));
    assert_eq!(states.root_file.find(&p("/r/sub")).unwrap().len(), 1);
}

#[test]
fn move_to_parent_of_the_root_does_nothing() {
    let mut states = States::new();
    assert!(MoveToParent { dir: DirArg::from("/".to_string()) }.run(&mut states.actions).is_none());
    assert!(MoveToParent { dir: DirArg::from("x".to_string()) }.run(&mut states.actions).is_none());
    assert!(!states.actions.expanded_dir.contains(&p("/")));
}

#[test]
fn refresh_rereads_what_is_expanded() {
    let mut states = expanded_tree();
    let command = Refresh { dir: DirArg::from("/r".to_string()) };
    let dir = command.run(&mut states.actions).unwrap();
    assert!(states.actions.expanded_dir.contains(&p("/r")));
    let top = disk(&[("x", FileType::Directory), ("w", FileType::Regular), ("v", FileType::Regular)]);
    let mut walk = command.walk(&dir, &probes(&dir), top, &mut states);
    let mut visited = Vec::new();
    while let Some((level, path)) = walk.next_dir() {
        visited.push(String::from_utf8(path.to_bytes()).unwrap());
        let fresh = if path == p("/r/x") {
            disk(&[("f", FileType::Regular), ("new", FileType::Regular), ("sub", FileType::Directory)])
        } else {
            disk(&[("below", FileType::Regular)])
        };
        command.visit(&mut walk, level, &path, &probes(&path), fresh, &mut states);
    }
    assert_eq!(visited, vec!["/r/x", "/r/x/sub"]);
    let patch = command.finish(&dir, &probes(&dir), perms(true, true, true), &mut states);
    assert_eq!(
        shape(&states),
        vec![
            at(0, "/r"),
            at(1, "/r/v"),
            at(1, "/r/w"),
            at(1, "/r/x"),
            at(2, "/r/x/f"),
            at(2, "/r/x/new"),
            at(2, "/r/x/sub"),
        ]
    );
    assert_eq!((patch.start, patch.end), (0, None));
    assert_eq!(states.root_file.find(&p("/r/x/sub")).unwrap().len(), 1);
}

#[test]
fn refresh_of_a_relative_directory_is_refused() {
    let mut states = States::new();
    assert!(Refresh { dir: DirArg::from("r".to_string()) }.run(&mut states.actions).is_none());
}

fn redraw(states: &mut States, dir: &str) -> Vec<(usize, String)> {
    let filer = NewFiler { dir: DirArg::from(dir.to_string()) };
    let dir = filer.run().unwrap();
    filer.rerender(&dir, &probes(&dir), perms(true, false, true), states);
    shape(states)
}

#[test]
fn expanding_gives_what_listing_anew_gives() {
    let mut states = expanded_tree();
    let command = ExpandDir { line_idx: LineIdx::from(4) };
    let (level, path) = command.run(&states).unwrap();
    assert_eq!(path, p("/r/x/sub"));
    expand_dir(&path, &mut states.actions);
    show_children(
        command.line_idx,
        level,
        &path,
        &probes(&path),
        disk(&[("one", FileType::Regular), ("two", FileType::Directory)]),
        &mut states,
    );
    let patched = shape(&states);
    assert_eq!(patched.len(), 7);
    assert_eq!(redraw(&mut states, "/r"), patched);
}

#[test]
fn collapsing_gives_what_listing_anew_gives() {
    let mut states = expanded_tree();
    expand_dir(&p("/r/x"), &mut states.actions);
    let patched = shape(&states);
    assert_eq!(patched, vec![at(0, "/r"), at(1, "/r/w"), at(1, "/r/x")]);
    assert_eq!(redraw(&mut states, "/r"), patched);
}

#[test]
fn deleting_gives_what_listing_anew_gives() {
    let mut states = expanded_tree();
    let command = DeleteEntry { line_idx: LineIdx::from(2) };
    let (_, entry) = command.run(&states).unwrap();
    command.commit(&entry, &probes(entry.parent()), &mut states);
    let patched = shape(&states);
    assert_eq!(patched, vec![at(0, "/r"), at(1, "/r/w")]);
    assert_eq!(redraw(&mut states, "/r"), patched);
}

#[test]
fn creating_gives_what_listing_anew_gives() {
    let mut states = expanded_tree();
    let command = CreateEntry { line_idx: LineIdx::from(3), fname: "g".to_string() };
    let entry = command.run(&states).unwrap();
    assert_eq!(entry.file, p("/r/x/g"));
    command.commit(&entry, &probes(&entry.dir), &mut states);
    let patched = shape(&states);
    assert_eq!(
        patched,
        vec![
            at(0, "/r"),
            at(1, "/r/w"),
            at(1, "/r/x"),
            at(2, "/r/x/f"),
            at(2, "/r/x/g"),
            at(2, "/r/x/sub"),
        ]
    );
    assert_eq!(redraw(&mut states, "/r"), patched);
}

#[test]
fn two_deletes_of_the_same_directory_leave_the_display_whole() {
    let mut states = expanded_tree();
    let command = DeleteEntry { line_idx: LineIdx::from(2) };
    let (_, first) = command.run(&states).unwrap();
    let (_, second) = command.run(&states).unwrap();
    assert!(command.commit(&first, &probes(first.parent()), &mut states).is_some());
    let after_first = shape(&states);
    let patch = command.commit(&second, &probes(second.parent()), &mut states).unwrap();
    assert!(patch.lines.is_empty());
    assert_eq!(patch.end, Some(patch.start));
    assert_eq!(shape(&states), after_first);
    assert_eq!(redraw(&mut states, "/r"), after_first);
}

#[test]
fn a_collapse_between_plan_and_commit_of_a_delete_leaves_the_display_whole() {
    let mut states = expanded_tree();
    let command = DeleteEntry { line_idx: LineIdx::from(2) };
    let (_, entry) = command.run(&states).unwrap();
    expand_dir(&p("/r/x"), &mut states.actions);
    command.commit(&entry, &probes(entry.parent()), &mut states);
    let rows = shape(&states);
    assert_eq!(rows, vec![at(0, "/r"), at(1, "/r/w")]);
    assert_eq!(redraw(&mut states, "/r"), rows);
}

#[test]
fn no_row_appears_twice_after_a_sequence_of_commands() {
    let mut states = expanded_tree();
    let create = CreateEntry { line_idx: LineIdx::from(2), fname: "new/".to_string() };
    let entry = create.run(&states).unwrap();
    create.commit(&entry, &probes(&entry.dir), &mut states);
    let rename = RenameEntry {
        line_idx: LineIdx::from(1),
        dir: DirArg::from("/r".to_string()),
        path: "x/new/w".to_string(),
    };
    let mv = rename.run(&states).unwrap();
    let file = rename.take(&mv, &probes(&p("/r")), &mut states).unwrap();
    rename.place(&mv, file, &probes(&p("/r/x/new")), &mut states);
    expand_dir(&p("/r/x/sub"), &mut states.actions);
    show_children(
        LineIdx::from(-1),
        Level::from_num(2),
        &p("/r/x/sub"),
        &probes(&p("/r/x/sub")),
        disk(&[("deep", FileType::Regular)]),
        &mut states,
    );
    let rows = shape(&states);
    assert_eq!(
        rows,
        vec![
            at(0, "/r"),
            at(1, "/r/x"),
            at(2, "/r/x/f"),
            at(2, "/r/x/new"),
            at(3, "/r/x/new/w"),
            at(2, "/r/x/sub"),
            at(3, "/r/x/sub/deep"),
        ]
    );
    for i in 0..rows.len() {
        for j in 0..i {
            assert_ne!(rows[i].1, rows[j].1);
        }
    }
    assert_eq!(redraw(&mut states, "/r"), rows);
}
