//! The command that renames or moves the file or directory of a row.
//!
//! The command is taken in steps. `run` says which path is to be renamed
//! and, as far as the text of the target tells, to which; `append_fname`
//! corrects the target once it is known whether it is a directory on disk.
//! After the disk has renamed the entry, `take` lifts the cached node out of
//! its old directory and `place` sets it down in the new one, moves the
//! expansion along and brings the display up to date. When the disk
//! refuses, neither is called and nothing changes.

use core::ops::Range;
use crate::actions::DirArg;
use crate::actions::blocks::lemma_block;
use crate::actions::listing::block_end;
use crate::actions::listing::block_start;
use crate::actions::listing::body_start;
use crate::actions::listing::flattened;
use crate::actions::renderer::Item;
use crate::actions::renderer::Level;
use crate::actions::renderer::LineIdx;
use crate::actions::renderer::Patch;
use crate::actions::renderer::Row;
use crate::actions::renderer::patched_by;
use crate::actions::renderer::replaces;
use crate::actions::renderer::row_at;
use crate::actions::renderer::rows_of;
use crate::actions::renderer::spliced;
use crate::actions::states::ExpendedDir;
use crate::actions::states::rebased;
use crate::actions::utils::find_in_dir;
use crate::actions::utils::get_entries;
use crate::fs;
use crate::fs::DirProbe;
use crate::fs::File;
use crate::fs::model::Node;
use crate::fs::model::cached_at;
use crate::fs::model::dir_at;
use crate::fs::model::lookup;
use crate::fs::model::opened;
use crate::fs::model::put;
use crate::fs::model::resolvable;
use crate::fs::model::with_dir_at;
use crate::fs::model::without;
use crate::path::FsPath;
use crate::path::concat;
use crate::path::followed;
use crate::path::is_absolute;
use crate::states::States;
use vstd::prelude::*;

verus! {

/// Asks to rename what the row at `line_idx` stands for to `path`, which is
/// read from the directory of the row unless it starts at the root. `dir` is
/// the directory that the display starts from.
#[derive(Debug)]
pub struct RenameEntry {
    pub line_idx: LineIdx,
    pub dir: DirArg,
    pub path: String,
}

/// A rename from one path to another.
#[derive(Debug)]
pub struct Move {
    pub old_path: FsPath,
    pub new_path: FsPath,
}

/// Whether `anc` is at or above both `this` and `that`.
pub open spec fn common_ancestor(
    anc: Seq<Seq<u8>>,
    this: Seq<Seq<u8>>,
    that: Seq<Seq<u8>>,
) -> bool {
    anc.is_prefix_of(this) && anc.is_prefix_of(that)
}

/// Whether `anc` is at or above both `this` and `that`.
pub fn is_common_ancestor(anc: &FsPath, this: &FsPath, that: &FsPath) -> (r: bool)
    ensures
        r == common_ancestor(anc@, this@, that@),
{
    this.starts_with(anc) && that.starts_with(anc)
}

/// The target of a rename once it is known whether it names a directory on
/// disk: something that is moved to a directory keeps its name there.
pub open spec fn settled(old_path: Seq<Seq<u8>>, new_path: Seq<Seq<u8>>, is_dir: bool) -> Seq<
    Seq<u8>,
> {
    if is_dir && old_path.len() > 0 {
        new_path.push(old_path.last())
    } else {
        new_path
    }
}

/// The target of a rename of `old_path` to `new_path`, of which it is now
/// known whether it is a directory on disk.
pub fn append_fname(old_path: &FsPath, new_path: FsPath, is_dir: bool) -> (r: FsPath)
    ensures
        r@ == settled(old_path@, new_path@, is_dir),
{
    let mut new_path = new_path;
    if is_dir {
        match old_path.file_name() {
            Some(fname) => {
                new_path.push(fname.clone());
            },
            None => {},
        }
    }
    new_path
}

/// The path that a rename of `old_path` to the textual target `new_path`
/// asks for, as far as the text tells.
pub fn resolve(old_path: &FsPath, new_path: &[u8]) -> (r: FsPath)
    ensures
        r@ == concat(old_path@, new_path@),
{
    old_path.resolve(new_path)
}

/// The deepest row, among the first `n` of `rows`, that is at or above both
/// `old_path` and `new_path` and is reached by going down from `start`, each
/// step to a row at or below the one before; `start` itself if there is
/// none. With the path comes the level at which it is shown.
pub open spec fn deepest(
    rows: Seq<Row>,
    n: int,
    old_path: Seq<Seq<u8>>,
    new_path: Seq<Seq<u8>>,
    start: (nat, Seq<Seq<u8>>),
) -> (nat, Seq<Seq<u8>>)
    decreases n,
{
    if n <= 0 {
        start
    } else {
        let acc = deepest(rows, n - 1, old_path, new_path, start);
        if common_ancestor(rows[n - 1].path, old_path, new_path) && acc.1.is_prefix_of(
            rows[n - 1].path,
        ) {
            (rows[n - 1].level, rows[n - 1].path)
        } else {
            acc
        }
    }
}

/// The directory on display whose rows a rename from `old_path` to
/// `new_path` touches, with its level: the deepest one that holds both
/// paths, if the directory `dir` that the display starts from holds both.
pub open spec fn visible_ancestor(
    rows: Seq<Row>,
    dir: Option<Seq<Seq<u8>>>,
    old_path: Seq<Seq<u8>>,
    new_path: Seq<Seq<u8>>,
) -> Option<(nat, Seq<Seq<u8>>)> {
    match dir {
        Some(dir) => if common_ancestor(dir, old_path, new_path) {
            Some(deepest(rows, rows.len() as int, old_path, new_path, (0, dir)))
        } else {
            None
        },
        None => None,
    }
}

/// The directories strictly above `new_path` that are at or below `anc`.
pub open spec fn between(anc: Seq<Seq<u8>>, new_path: Seq<Seq<u8>>) -> Set<Seq<Seq<u8>>> {
    Set::new(
        |p: Seq<Seq<u8>>| anc.is_prefix_of(p) && p.is_prefix_of(new_path) && p.len() < new_path.len(),
    )
}

/// The expanded directories after a rename from `old_path` to `new_path`.
/// If the rename stays within a directory on display, `anc`, whatever was
/// expanded at or below the old path is expanded at its new path, and so is
/// every directory from `anc` down to the new place; else the old path is
/// simply no longer expanded.
pub open spec fn expanded_after(
    expanded: Set<Seq<Seq<u8>>>,
    old_path: Seq<Seq<u8>>,
    new_path: Seq<Seq<u8>>,
    anc: Option<Seq<Seq<u8>>>,
) -> Set<Seq<Seq<u8>>> {
    match anc {
        Some(anc) => expanded.map(|p: Seq<Seq<u8>>| rebased(p, old_path, new_path)).union(
            between(anc, new_path),
        ),
        None => expanded.remove(old_path),
    }
}

/// The rows that the directory `anc`, shown at `level`, puts on display
/// below its own row, as far as the cache `root` knows the directory.
pub open spec fn listing_of(
    root: Seq<(Seq<u8>, Node)>,
    anc: Seq<Seq<u8>>,
    level: nat,
    expanded: Set<Seq<Seq<u8>>>,
) -> Seq<Row> {
    if cached_at(root, anc, 0) && level < usize::MAX {
        flattened(dir_at(root, anc, 0), anc, level, expanded)
    } else {
        Seq::empty()
    }
}

/// The cache `root` after the entry `path` has been taken out of the
/// directory that holds it, which was opened for it.
pub open spec fn lifted(
    root: Seq<(Seq<u8>, Node)>,
    probes: Seq<DirProbe>,
    path: Seq<Seq<u8>>,
) -> Seq<(Seq<u8>, Node)> {
    let parent = path.drop_last();
    let o = opened(root, parent, probes, 0);
    with_dir_at(o, parent, 0, without(dir_at(o, parent, 0), path.last()))
}

/// The cache `root` after the node `n` has been put at `path`, into the
/// directory that holds it, which was opened for it.
pub open spec fn settled_in(
    root: Seq<(Seq<u8>, Node)>,
    probes: Seq<DirProbe>,
    path: Seq<Seq<u8>>,
    n: Node,
) -> Seq<(Seq<u8>, Node)> {
    let parent = path.drop_last();
    let o = opened(root, parent, probes, 0);
    with_dir_at(o, parent, 0, put(dir_at(o, parent, 0), path.last(), n))
}

/// Adds to `expanded` every directory strictly above `new_path` that is at
/// or below `anc`.
fn expand_between(expanded: &mut ExpendedDir, anc: &FsPath, new_path: &FsPath)
    ensures
        final(expanded)@ == old(expanded)@.union(between(anc@, new_path@)),
{
    let mut path = new_path.clone();
    let ghost target = old(expanded)@.union(between(anc@, new_path@));
    loop
        invariant
            path@.is_prefix_of(new_path@),
            target == old(expanded)@.union(between(anc@, new_path@)),
            forall|p: Seq<Seq<u8>>|
                expanded@.contains(p) == (old(expanded)@.contains(p) || (between(
                    anc@,
                    new_path@,
                ).contains(p) && p.len() >= path@.len())),
        decreases path@.len(),
    {
        if !path.pop() {
            return ;
        }
        if !path.starts_with(anc) {
            return ;
        }
        expanded.insert(path.clone());
    }
}

impl RenameEntry {
    /// The bytes of the target that was asked for.
    pub open spec fn target_bytes(&self) -> Seq<u8> {
        vstd::utf8::encode_utf8(self.path@)
    }

    /// The directory that the display starts from, if the command names one
    /// by an absolute path.
    pub open spec fn shown_dir(&self) -> Option<Seq<Seq<u8>>> {
        if is_absolute(self.dir.bytes()) {
            Some(followed(Seq::empty(), self.dir.bytes()))
        } else {
            None
        }
    }

    /// The rename that is asked for, or `None` when the position names no
    /// row or the row stands for the root.
    pub fn run(&self, states: &States) -> (r: Option<Move>)
        ensures
            match row_at(states.actions.rendered_lines@, self.line_idx@) {
                Some(row) => if row.path.len() > 0 {
                    &&& r is Some
                    &&& r->0.old_path@ == row.path
                    &&& r->0.new_path@ == concat(row.path, self.target_bytes())
                } else {
                    r is None
                },
                None => r is None,
            },
    {
        match states.actions.rendered_lines.row(self.line_idx) {
            Some(item) => {
                if item.path.len() == 0 {
                    None
                } else {
                    let old_path = item.path.clone();
                    let new_path = resolve(&old_path, self.path.as_str().as_bytes());
                    Some(Move { old_path, new_path })
                }
            },
            None => None,
        }
    }

    /// Lifts the cached node of the renamed entry out of the directory that
    /// held it. `None` when the cache did not know the entry.
    pub fn take(&self, mv: &Move, probes: &Vec<DirProbe>, states: &mut States) -> (r: Option<File>)
        requires
            old(states).wf(),
            mv.old_path@.len() > 0,
            probes@.len() == mv.old_path@.len() - 1,
            resolvable(old(states).root_file@, mv.old_path@.drop_last(), 0),
        ensures
            final(states).wf(),
            final(states).actions == old(states).actions,
            final(states).root_file@ == lifted(old(states).root_file@, probes@, mv.old_path@),
            match r {
                Some(f) => {
                    &&& f.wf()
                    &&& lookup(
                        dir_at(
                            opened(old(states).root_file@, mv.old_path@.drop_last(), probes@, 0),
                            mv.old_path@.drop_last(),
                            0,
                        ),
                        mv.old_path@.last(),
                    ) == Some(f@)
                },
                None => lookup(
                    dir_at(
                        opened(old(states).root_file@, mv.old_path@.drop_last(), probes@, 0),
                        mv.old_path@.drop_last(),
                        0,
                    ),
                    mv.old_path@.last(),
                ) is None,
            },
    {
        match mv.old_path.parent() {
            Some(old_parent) => {
                let mut src_dir = get_entries(&mut states.root_file, &old_parent, probes);
                src_dir.remove(&mv.old_path)
            },
            None => vstd::pervasive::unreached(),
        }
    }

    /// Sets the cached node of the renamed entry down at its new path, moves
    /// the expansion along, and brings the display up to date. If the
    /// rename stays within a directory on display, the rows below the row of
    /// the deepest such directory are made anew; else the first run of rows
    /// at or below the old path leaves the display.
    pub fn place(&self, mv: &Move, file: File, probes: &Vec<DirProbe>, states: &mut States) -> (p:
        Option<Patch>)
        requires
            old(states).wf(),
            file.wf(),
            mv.new_path@.len() > 0,
            probes@.len() == mv.new_path@.len() - 1,
            resolvable(old(states).root_file@, mv.new_path@.drop_last(), 0),
        ensures
            final(states).wf(),
            final(states).root_file@ == settled_in(
                old(states).root_file@,
                probes@,
                mv.new_path@,
                file@,
            ),
            final(states).actions.rendered_lines@ == patched_by(
                old(states).actions.rendered_lines@,
                p,
            ),
            match visible_ancestor(
                old(states).actions.rendered_lines@,
                self.shown_dir(),
                mv.old_path@,
                mv.new_path@,
            ) {
                Some((level, anc)) => {
                    &&& final(states).actions.expanded_dir@ == expanded_after(
                        old(states).actions.expanded_dir@,
                        mv.old_path@,
                        mv.new_path@,
                        Some(anc),
                    )
                    &&& replaces(
                        p,
                        body_start(old(states).actions.rendered_lines@, anc),
                        block_end(old(states).actions.rendered_lines@, anc),
                        listing_of(
                            final(states).root_file@,
                            anc,
                            level,
                            final(states).actions.expanded_dir@,
                        ),
                    )
                    &&& final(states).actions.rendered_lines@ == spliced(
                        old(states).actions.rendered_lines@,
                        body_start(old(states).actions.rendered_lines@, anc),
                        block_end(old(states).actions.rendered_lines@, anc),
                        listing_of(
                            final(states).root_file@,
                            anc,
                            level,
                            final(states).actions.expanded_dir@,
                        ),
                    )
                },
                None => {
                    &&& final(states).actions.expanded_dir@ == expanded_after(
                        old(states).actions.expanded_dir@,
                        mv.old_path@,
                        mv.new_path@,
                        None,
                    )
                    &&& replaces(
                        p,
                        block_start(old(states).actions.rendered_lines@, mv.old_path@),
                        block_end(old(states).actions.rendered_lines@, mv.old_path@),
                        Seq::empty(),
                    )
                    &&& final(states).actions.rendered_lines@ == spliced(
                        old(states).actions.rendered_lines@,
                        block_start(old(states).actions.rendered_lines@, mv.old_path@),
                        block_end(old(states).actions.rendered_lines@, mv.old_path@),
                        Seq::empty(),
                    )
                },
            },
    {
        match mv.new_path.parent() {
            Some(new_parent) => {
                let mut dst_dir = get_entries(&mut states.root_file, &new_parent, probes);
                match mv.new_path.file_name() {
                    Some(new_fname) => {
                        dst_dir.insert(new_fname, file);
                    },
                    None => {},
                }
            },
            None => {},
        }
        let ancestor = self.ancestor(&mv.old_path, &mv.new_path, states.actions.rendered_lines.rows());
        match ancestor {
            Some((level, anc)) => {
                states.actions.expanded_dir.rename_prefix(&mv.old_path, &mv.new_path);
                expand_between(&mut states.actions.expanded_dir, &anc, &mv.new_path);
                let rows = match states.root_file.find(&anc) {
                    Some(entries) => {
                        if level.to_num() < usize::MAX {
                            let handle = crate::actions::utils::FlattenEntries::new(
                                level,
                                entries,
                                &anc,
                            );
                            handle.filter(&states.actions.expanded_dir).collect()
                        } else {
                            Vec::new()
                        }
                    },
                    None => Vec::new(),
                };
                proof {
                    lemma_block(states.actions.rendered_lines@, anc@);
                    assert(rows_of(rows@) =~= listing_of(
                        states.root_file@,
                        anc@,
                        level@,
                        states.actions.expanded_dir@,
                    ));
                }
                let anc_ref = &anc;
                let span = |lines: &Vec<Item>| -> (sel: Range<usize>)
                    ensures
                        sel.start == body_start(rows_of(lines@), anc_ref@),
                        sel.end == block_end(rows_of(lines@), anc_ref@),
                    {
                        let range = find_in_dir(anc_ref, lines);
                        if range.start == range.end {
                            range
                        } else {
                            (range.start + 1)..range.end
                        }
                    };
                states.actions.rendered_lines.edit().replace_range(rows, span)
            },
            None => {
                states.actions.expanded_dir.remove(&mv.old_path);
                proof {
                    lemma_block(states.actions.rendered_lines@, mv.old_path@);
                }
                let old_ref = &mv.old_path;
                let gone = |lines: &Vec<Item>| -> (sel: Range<usize>)
                    ensures
                        sel.start == block_start(rows_of(lines@), old_ref@),
                        sel.end == block_end(rows_of(lines@), old_ref@),
                    { find_in_dir(old_ref, lines) };
                states.actions.rendered_lines.edit().remove_range(gone)
            },
        }
    }

    /// The directory on display whose rows a rename from `old_path` to
    /// `new_path` touches, with its level.
    pub fn ancestor(&self, old_path: &FsPath, new_path: &FsPath, lines: &Vec<Item>) -> (r: Option<
        (Level, FsPath),
    >)
        ensures
            match visible_ancestor(rows_of(lines@), self.shown_dir(), old_path@, new_path@) {
                Some((level, anc)) => r matches Some((l, a)) && l@ == level && a@ == anc,
                None => r is None,
            },
    {
        match self.dir.as_path() {
            Some(dir) => {
                if !is_common_ancestor(&dir, old_path, new_path) {
                    return None;
                }
                let ghost rows = rows_of(lines@);
                let ghost start = (0nat, dir@);
                let mut acc: (Level, FsPath) = (Level::base(), dir);
                let mut i: usize = 0;
                while i < lines.len()
                    invariant
                        i <= lines.len(),
                        rows == rows_of(lines@),
                        (acc.0@, acc.1@) == deepest(rows, i as int, old_path@, new_path@, start),
                    decreases lines.len() - i,
                {
                    let item = &lines[i];
                    if is_common_ancestor(&item.path, old_path, new_path) && item.path.starts_with(
                        &acc.1,
                    ) {
                        acc = (item.level, item.path.clone());
                    }
                    i += 1;
                }
                Some(acc)
            },
            None => None,
        }
    }
}

} // verus!
