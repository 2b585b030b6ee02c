use lazy_filer::actions::renderer::FileType;
use lazy_filer::actions::renderer::Item;
use lazy_filer::actions::renderer::Items;
use lazy_filer::actions::renderer::Level;
use lazy_filer::actions::renderer::LineIdx;
use lazy_filer::actions::renderer::Metadata;
use lazy_filer::actions::renderer::Patch;
use lazy_filer::fs::Permissions;
use lazy_filer::path::FsPath;

fn p(s: &str) -> FsPath {
    FsPath::parse(s.as_bytes()).expect("an absolute path")
}

fn row(path: &str) -> Item {
    Item {
        level: Level::from_num(p(path).len()),
        path: p(path),
        metadata: Metadata { perm: Permissions::default(), file_type: FileType::Regular },
    }
}

fn rows(paths: &[&str]) -> Vec<Item> {
    paths.iter().map(|s| row(s)).collect()
}

fn items(paths: &[&str]) -> Items {
    let mut out = Items::new();
    out.edit().replace_all(rows(paths));
    out
}

fn shown(items: &Items) -> Vec<String> {
    items.rows().iter().map(|i| String::from_utf8(i.path.to_bytes()).unwrap()).collect()
}

fn lines(patch: &Patch) -> Vec<String> {
    patch.lines.iter().map(|i| String::from_utf8(i.path.to_bytes()).unwrap()).collect()
}

fn apply(view: &mut Vec<String>, patch: &Patch) {
    let end = patch.end.unwrap_or(view.len());
    view.splice(patch.start..end, lines(patch));
}

#[test]
fn line_idx_counts_from_the_start() {
    assert_eq!(LineIdx::from(0).as_usize(5), Some(0));
    assert_eq!(LineIdx::from(4).as_usize(5), Some(4));
    assert_eq!(LineIdx::from(7).as_usize(5), Some(7));
}

#[test]
fn line_idx_counts_from_the_end_when_negative() {
    assert_eq!(LineIdx::from(-1).as_usize(5), Some(4));
    assert_eq!(LineIdx::from(-5).as_usize(5), Some(0));
    assert_eq!(LineIdx::from(-6).as_usize(5), None);
    assert_eq!(LineIdx::from(-1).as_usize(0), None);
    assert_eq!(LineIdx::from(i64::MIN).as_usize(usize::MAX), Some(usize::MAX - (1usize << 63)));
}

#[test]
fn line_idx_offset() {
    assert_eq!(LineIdx::from(3).offset(1), Some(LineIdx::from(4)));
    assert_eq!(LineIdx::from(-1).offset(1), Some(LineIdx::from(0)));
    assert_eq!(LineIdx::from(i64::MAX).offset(1), None);
    assert_eq!(LineIdx::from(3).raw(), 3);
}

#[test]
fn replace_all_shows_the_new_rows() {
    let mut model = items(&["/old"]);
    let patch = model.edit().replace_all(rows(&["/a", "/b"]));
    assert_eq!(shown(&model), vec!["/a", "/b"]);
    assert_eq!(patch.start, 0);
    assert_eq!(patch.end, None);
    assert_eq!(lines(&patch), vec!["/a", "/b"]);
    let mut view = vec!["/old".to_string()];
    apply(&mut view, &patch);
    assert_eq!(view, shown(&model));
}

#[test]
fn replace_range_splices() {
    let mut model = items(&["/a", "/b", "/c", "/d"]);
    let mut view = shown(&model);
    let patch = model.edit().replace_range(rows(&["/x", "/y", "/z"]), |_| 1..3).unwrap();
    assert_eq!(shown(&model), vec!["/a", "/x", "/y", "/z", "/d"]);
    assert_eq!((patch.start, patch.end), (1, Some(3)));
    assert_eq!(lines(&patch), vec!["/x", "/y", "/z"]);
    apply(&mut view, &patch);
    assert_eq!(view, shown(&model));
}

#[test]
fn replace_range_reads_the_rows_on_display() {
    let mut model = items(&["/a", "/b", "/c"]);
    let patch = model.edit().replace_range(rows(&["/x"]), |lines| 0..lines.len()).unwrap();
    assert_eq!(shown(&model), vec!["/x"]);
    assert_eq!((patch.start, patch.end), (0, Some(3)));
}

#[test]
fn replace_range_out_of_bounds_changes_nothing() {
    let mut model = items(&["/a", "/b"]);
    assert!(model.edit().replace_range(rows(&["/x"]), |_| 1..3).is_none());
    assert!(model.edit().replace_range(rows(&["/x"]), |_| 2..1).is_none());
    assert_eq!(shown(&model), vec!["/a", "/b"]);
}

#[test]
fn insert_puts_rows_before_the_position() {
    let mut model = items(&["/a", "/d"]);
    let mut view = shown(&model);
    let patch = model.edit().insert(rows(&["/b", "/c"]), LineIdx::from(1)).unwrap();
    assert_eq!(shown(&model), vec!["/a", "/b", "/c", "/d"]);
    assert_eq!((patch.start, patch.end), (1, Some(1)));
    apply(&mut view, &patch);
    assert_eq!(view, shown(&model));
}

#[test]
fn insert_at_the_end_appends() {
    let mut model = items(&["/a"]);
    let patch = model.edit().insert(rows(&["/b"]), LineIdx::from(1)).unwrap();
    assert_eq!(shown(&model), vec!["/a", "/b"]);
    assert_eq!((patch.start, patch.end), (1, Some(1)));
}

#[test]
fn insert_counts_a_negative_position_from_the_end() {
    let mut model = items(&["/a", "/b", "/c"]);
    let patch = model.edit().insert(rows(&["/x"]), LineIdx::from(-1)).unwrap();
    assert_eq!(shown(&model), vec!["/a", "/b", "/x", "/c"]);
    assert_eq!((patch.start, patch.end), (2, Some(2)));
}

#[test]
fn insert_out_of_range_changes_nothing() {
    let mut model = items(&["/a"]);
    assert!(model.edit().insert(rows(&["/x"]), LineIdx::from(2)).is_none());
    assert!(model.edit().insert(rows(&["/x"]), LineIdx::from(-2)).is_none());
    assert_eq!(shown(&model), vec!["/a"]);
}

#[test]
fn insert_dyn_uses_the_position_that_was_computed() {
    let mut model = items(&["/a", "/b", "/z"]);
    let mut view = shown(&model);
    let patch = model.edit().insert_dyn(row("/m"), |_| 2);
    assert_eq!(shown(&model), vec!["/a", "/b", "/m", "/z"]);
    assert_eq!((patch.start, patch.end), (2, Some(2)));
    assert_eq!(lines(&patch), vec!["/m"]);
    apply(&mut view, &patch);
    assert_eq!(view, shown(&model));
}

#[test]
fn insert_dyn_appends_beyond_the_end() {
    let mut model = items(&["/a", "/b"]);
    let patch = model.edit().insert_dyn(row("/m"), |_| 17);
    assert_eq!(shown(&model), vec!["/a", "/b", "/m"]);
    assert_eq!((patch.start, patch.end), (2, Some(2)));
    let patch = model.edit().insert_dyn(row("/n"), |lines| lines.len());
    assert_eq!(shown(&model), vec!["/a", "/b", "/m", "/n"]);
    assert_eq!((patch.start, patch.end), (3, Some(3)));
}

#[test]
fn remove_takes_one_row() {
    let mut model = items(&["/a", "/b", "/c"]);
    let mut view = shown(&model);
    let patch = model.edit().remove(LineIdx::from(1)).unwrap();
    assert_eq!(shown(&model), vec!["/a", "/c"]);
    assert_eq!((patch.start, patch.end), (1, Some(2)));
    assert!(patch.lines.is_empty());
    apply(&mut view, &patch);
    assert_eq!(view, shown(&model));
}

#[test]
fn remove_with_a_negative_index_counts_from_the_end() {
    let mut model = items(&["/0", "/1", "/2", "/3", "/4"]);
    let patch = model.edit().remove(LineIdx::from(-1)).unwrap();
    assert_eq!(shown(&model), vec!["/0", "/1", "/2", "/3"]);
    assert_eq!((patch.start, patch.end), (4, Some(5)));
}

#[test]
fn remove_far_before_the_start_changes_nothing() {
    let mut model = items(&["/0", "/1", "/2", "/3", "/4"]);
    assert!(model.edit().remove(LineIdx::from(-6)).is_none());
    assert_eq!(shown(&model), vec!["/0", "/1", "/2", "/3", "/4"]);
}

#[test]
fn remove_beyond_the_end_changes_nothing() {
    let mut model = items(&["/0", "/1"]);
    assert!(model.edit().remove(LineIdx::from(2)).is_none());
    assert_eq!(shown(&model), vec!["/0", "/1"]);
}

#[test]
fn remove_then_insert_restores_the_rows() {
    for at in 0..4 {
        let mut model = items(&["/a", "/b", "/c", "/d"]);
        let taken = model.rows()[at].clone();
        let mut view = shown(&model);
        let first = model.edit().remove(LineIdx::from(at as i64)).unwrap();
        let second = model.edit().insert(vec![taken], LineIdx::from(at as i64)).unwrap();
        assert_eq!(shown(&model), vec!["/a", "/b", "/c", "/d"]);
        apply(&mut view, &first);
        apply(&mut view, &second);
        assert_eq!(view, vec!["/a", "/b", "/c", "/d"]);
    }
}

#[test]
fn remove_range_takes_a_run_of_rows() {
    let mut model = items(&["/a", "/b", "/c", "/d"]);
    let mut view = shown(&model);
    let patch = model.edit().remove_range(|_| 1..3).unwrap();
    assert_eq!(shown(&model), vec!["/a", "/d"]);
    assert_eq!((patch.start, patch.end), (1, Some(3)));
    assert!(patch.lines.is_empty());
    apply(&mut view, &patch);
    assert_eq!(view, shown(&model));
}

#[test]
fn remove_range_of_nothing_changes_nothing_but_reports() {
    let mut model = items(&["/a"]);
    let patch = model.edit().remove_range(|_| 1..1).unwrap();
    assert_eq!(shown(&model), vec!["/a"]);
    assert_eq!((patch.start, patch.end), (1, Some(1)));
}

#[test]
fn remove_range_out_of_bounds_changes_nothing() {
    let mut model = items(&["/a"]);
    assert!(model.edit().remove_range(|_| 0..2).is_none());
    assert_eq!(shown(&model), vec!["/a"]);
}

#[test]
fn every_edit_changes_the_length_by_what_comes_and_goes() {
    let mut model = items(&["/a", "/b", "/c", "/d", "/e"]);
    model.edit().replace_range(rows(&["/x"]), |_| 1..4);
    assert_eq!(model.len(), 5 + 1 - 3);
    model.edit().insert(rows(&["/p", "/q"]), LineIdx::from(0));
    assert_eq!(model.len(), 3 + 2);
    model.edit().remove(LineIdx::from(-1));
    assert_eq!(model.len(), 4);
    model.edit().remove_range(|_| 0..4);
    assert_eq!(model.len(), 0);
}

#[test]
fn row_and_index_find_the_row() {
    let model = items(&["/a", "/b", "/c"]);
    assert_eq!(model.row(LineIdx::from(1)).unwrap().path, p("/b"));
    assert_eq!(model.row(LineIdx::from(-1)).unwrap().path, p("/c"));
    assert!(model.row(LineIdx::from(3)).is_none());
    assert!(model.row(LineIdx::from(-4)).is_none());
    assert_eq!(model.index(LineIdx::from(-3)), Some(0));
    assert_eq!(model.index(LineIdx::from(3)), None);
}

#[test]
fn get_and_then_hands_the_row_to_the_closure() {
    let model = items(&["/a", "/b"]);
    let got = model.get(LineIdx::from(1)).and_then(|item| Some(item.path.clone()));
    assert_eq!(got, Some(p("/b")));
    let got = model.get(LineIdx::from(0)).and_then(|_| None::<u8>);
    assert_eq!(got, None);
    let got = model.get(LineIdx::from(2)).and_then(|item| Some(item.path.clone()));
    assert_eq!(got, None);
}

#[test]
fn levels_count_up_from_the_base() {
    assert_eq!(Level::base().to_num(), 0);
    assert_eq!(Level::base().increment().to_num(), 1);
    assert_eq!(Level::from_num(9).increment().to_num(), 10);
    assert_eq!(Level::max().to_num(), 10);
}

#[test]
fn repeat_calls_once_per_level() {
    let mut calls = 0;
    Level::from_num(3).repeat(|| calls += 1);
    assert_eq!(calls, 3);
    let mut calls = 0;
    Level::base().repeat(|| calls += 1);
    assert_eq!(calls, 0);
}

#[test]
fn file_type_letters() {
    assert_eq!(FileType::Regular.to_s(), b'F');
    assert_eq!(FileType::LinkRegular.to_s(), b'F');
    assert_eq!(FileType::Directory.to_s(), b'D');
    assert_eq!(FileType::LinkDirectory.to_s(), b'D');
    assert_eq!(FileType::Other.to_s(), b'U');
    assert_eq!(FileType::LinkOther.to_s(), b'U');
}

#[test]
fn metadata_tells_the_kind() {
    let of = |file_type| Metadata { perm: Permissions::default(), file_type };
    assert!(of(FileType::Regular).is_regular());
    assert!(of(FileType::LinkRegular).is_regular());
    assert!(!of(FileType::Directory).is_regular());
    assert!(of(FileType::Directory).is_dir());
    assert!(of(FileType::LinkDirectory).is_dir());
    assert!(!of(FileType::Other).is_dir());
    assert!(of(FileType::LinkRegular).is_link());
    assert!(of(FileType::LinkDirectory).is_link());
    assert!(of(FileType::LinkOther).is_link());
    assert!(!of(FileType::Regular).is_link());
    assert!(!of(FileType::Directory).is_link());
    assert!(!of(FileType::Other).is_link());
    assert!(!of(FileType::Other).is_regular());
    assert!(!of(FileType::LinkOther).is_dir());
}

#[test]
fn fold_goes_through_the_rows_in_order() {
    let model = items(&["/a", "/b/c", "/d/e/f"]);
    let depth = model.iter().fold(0usize, |acc, item| acc * 10 + item.level.to_num());
    assert_eq!(depth, 123);
    let none = Items::new().iter().fold(7u8, |acc, _| acc + 1);
    assert_eq!(none, 7);
}

#[test]
fn the_kind_of_a_directory_entry() {
    assert_eq!(FileType::of_disk(true, false, false, false, false), FileType::Regular);
    assert_eq!(FileType::of_disk(false, true, false, false, false), FileType::Directory);
    assert_eq!(FileType::of_disk(false, false, true, true, false), FileType::LinkRegular);
    assert_eq!(FileType::of_disk(false, false, true, false, true), FileType::LinkDirectory);
    assert_eq!(FileType::of_disk(false, false, true, false, false), FileType::LinkOther);
    assert_eq!(FileType::of_disk(false, false, false, false, false), FileType::Other);
    assert_eq!(FileType::of_disk(false, false, false, true, true), FileType::Other);
}
