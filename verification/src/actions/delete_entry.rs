//! The command that deletes the file or directory of a row.
//!
//! The command is taken in two steps. `run` says what is to be deleted on
//! disk; once that has been done, `commit` takes the entry out of the cache
//! and its rows off the display. When the disk refuses, `commit` is not
//! called and nothing changes.

use core::ops::Range;
use crate::actions::blocks::lemma_block;
use crate::actions::listing::block_end;
use crate::actions::listing::block_start;
use crate::actions::renderer::Item;
use crate::actions::renderer::LineIdx;
use crate::actions::renderer::Patch;
use crate::actions::renderer::Row;
use crate::actions::renderer::index_at;
use crate::actions::renderer::patched_by;
use crate::actions::renderer::replaces;
use crate::actions::renderer::row_at;
use crate::actions::renderer::rows_of;
use crate::actions::renderer::spliced;
use crate::actions::utils::find_in_dir;
use crate::actions::utils::get_entries;
use crate::fs::DirProbe;
use crate::fs::model::Node;
use crate::fs::model::dir_at;
use crate::fs::model::opened;
use crate::fs::model::resolvable;
use crate::fs::model::with_dir_at;
use crate::fs::model::without;
use crate::path::FsPath;
use crate::states::States;
use vstd::prelude::*;

verus! {

/// Asks to delete what the row at `line_idx` stands for.
#[derive(Debug, Clone, Copy)]
pub struct DeleteEntry {
    pub line_idx: LineIdx,
}

/// What is to be deleted, and how much of the display goes with it.
#[derive(Debug)]
pub enum Entry {
    /// A directory: its row and every row below it go.
    Recursive { parent: FsPath, path: FsPath },
    /// Anything else: its row goes.
    Single { parent: FsPath, path: FsPath },
}

impl Entry {
    /// The path of what is to be deleted.
    pub open spec fn target(&self) -> Seq<Seq<u8>> {
        match self {
            Entry::Recursive { path, .. } => path@,
            Entry::Single { path, .. } => path@,
        }
    }

    /// The directory that holds what is to be deleted.
    pub open spec fn holder(&self) -> Seq<Seq<u8>> {
        match self {
            Entry::Recursive { parent, .. } => parent@,
            Entry::Single { parent, .. } => parent@,
        }
    }

    /// The path of what is to be deleted.
    pub fn path(&self) -> (r: &FsPath)
        ensures
            r@ == self.target(),
    {
        match self {
            Entry::Recursive { path, .. } => path,
            Entry::Single { path, .. } => path,
        }
    }

    /// The directory that holds what is to be deleted.
    pub fn parent(&self) -> (r: &FsPath)
        ensures
            r@ == self.holder(),
    {
        match self {
            Entry::Recursive { parent, .. } => parent,
            Entry::Single { parent, .. } => parent,
        }
    }

    /// Whether the deletion on disk has to take a whole tree away: only for a
    /// directory that is not reached through a link. A link to a directory is
    /// deleted as the link that it is.
    pub fn removes_tree(&self, is_link: bool) -> (r: bool)
        ensures
            r == (self is Recursive && !is_link),
    {
        match self {
            Entry::Recursive { .. } => !is_link,
            Entry::Single { .. } => false,
        }
    }
}

/// What `run` makes of a row.
pub open spec fn planned(row: Row, is_link: bool, entry: Entry) -> bool {
    &&& row.path.len() > 0
    &&& is_link == row.metadata.is_link()
    &&& entry.target() == row.path
    &&& entry.holder() == row.path.drop_last()
    &&& entry is Recursive <==> row.metadata.is_dir()
}

/// The cache `root` after the entry `path` has been taken out of the
/// directory `parent`, which was opened for it.
pub open spec fn forgotten(
    root: Seq<(Seq<u8>, Node)>,
    parent: Seq<Seq<u8>>,
    probes: Seq<DirProbe>,
    path: Seq<Seq<u8>>,
) -> Seq<(Seq<u8>, Node)> {
    let o = opened(root, parent, probes, 0);
    if path.len() > 0 {
        with_dir_at(o, parent, 0, without(dir_at(o, parent, 0), path.last()))
    } else {
        o
    }
}

impl DeleteEntry {
    /// What is to be deleted, and whether it is a symbolic link; `None` when
    /// the position names no row or the row stands for the root.
    pub fn run(&self, states: &States) -> (r: Option<(bool, Entry)>)
        ensures
            match row_at(states.actions.rendered_lines@, self.line_idx@) {
                Some(row) => if row.path.len() > 0 {
                    r matches Some((is_link, entry)) && planned(row, is_link, entry)
                } else {
                    r is None
                },
                None => r is None,
            },
    {
        match states.actions.rendered_lines.row(self.line_idx) {
            Some(item) => {
                match item.path.parent() {
                    Some(parent) => {
                        let path = item.path.clone();
                        let is_link = item.metadata.is_link();
                        if item.metadata.is_dir() {
                            Some((is_link, Entry::Recursive { parent, path }))
                        } else {
                            Some((is_link, Entry::Single { parent, path }))
                        }
                    },
                    None => None,
                }
            },
            None => None,
        }
    }

    /// Carries the deletion through after the disk has done its part. The
    /// entry leaves the cache with all that was cached below it. A directory
    /// leaves the set of expanded directories, and the first run of rows at
    /// or below its path leaves the display; of anything else, the row at
    /// `line_idx` leaves the display, if there still is one.
    pub fn commit(&self, entry: &Entry, probes: &Vec<DirProbe>, states: &mut States) -> (p: Option<
        Patch,
    >)
        requires
            old(states).wf(),
            probes@.len() == entry.holder().len(),
            resolvable(old(states).root_file@, entry.holder(), 0),
        ensures
            final(states).wf(),
            final(states).root_file@ == forgotten(
                old(states).root_file@,
                entry.holder(),
                probes@,
                entry.target(),
            ),
            final(states).actions.rendered_lines@ == patched_by(
                old(states).actions.rendered_lines@,
                p,
            ),
            entry is Recursive ==> {
                &&& final(states).actions.expanded_dir@ == old(states).actions.expanded_dir@.remove(
                    entry.target(),
                )
                &&& replaces(
                    p,
                    block_start(old(states).actions.rendered_lines@, entry.target()),
                    block_end(old(states).actions.rendered_lines@, entry.target()),
                    Seq::empty(),
                )
                &&& final(states).actions.rendered_lines@ == spliced(
                    old(states).actions.rendered_lines@,
                    block_start(old(states).actions.rendered_lines@, entry.target()),
                    block_end(old(states).actions.rendered_lines@, entry.target()),
                    Seq::empty(),
                )
            },
            entry is Single ==> {
                &&& final(states).actions.expanded_dir@ == old(states).actions.expanded_dir@
                &&& match index_at(
                    old(states).actions.rendered_lines@.len() as int,
                    self.line_idx@,
                ) {
                    Some(i) => {
                        &&& replaces(p, i, i + 1, Seq::empty())
                        &&& final(states).actions.rendered_lines@
                            == old(states).actions.rendered_lines@.remove(i)
                    },
                    None => {
                        &&& p is None
                        &&& final(states).actions.rendered_lines@
                            == old(states).actions.rendered_lines@
                    },
                }
            },
    {
        proof {
            crate::fs::lemmas::lemma_opened_unchanged(states.root_file@, entry.holder(), probes@);
        }
        {
            let mut dir = get_entries(&mut states.root_file, entry.parent(), probes);
            let _ = dir.remove(entry.path());
        }
        match entry {
            Entry::Recursive { parent: _, path } => {
                states.actions.expanded_dir.remove(path);
                proof {
                    lemma_block(states.actions.rendered_lines@, path@);
                    states.actions.rendered_lines.lemma_list();
                }
                let whole = |lines: &Vec<Item>| -> (sel: Range<usize>)
                    ensures
                        sel.start == block_start(rows_of(lines@), path@),
                        sel.end == block_end(rows_of(lines@), path@),
                    { find_in_dir(path, lines) };
                states.actions.rendered_lines.edit().remove_range(whole)
            },
            Entry::Single { .. } => states.actions.rendered_lines.edit().remove(self.line_idx),
        }
    }
}

} // verus!
