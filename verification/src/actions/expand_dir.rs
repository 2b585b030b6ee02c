//! The command that expands a collapsed directory and collapses an expanded
//! one.
//!
//! An expanded directory is collapsed in one step. A collapsed one is first
//! marked as expanded; once its contents have been read from disk,
//! `show_children` puts them on display.

use core::ops::Range;
use crate::actions::blocks::lemma_block;
use crate::actions::listing::block_end;
use crate::actions::listing::body_start;
use crate::actions::listing::flattened;
use crate::actions::listing::reread;
use crate::actions::listing::reread_dir;
use crate::actions::renderer::Item;
use crate::actions::renderer::Level;
use crate::actions::renderer::LineIdx;
use crate::actions::renderer::Patch;
use crate::actions::renderer::PatchView;
use crate::actions::renderer::index_at;
use crate::actions::renderer::patched_by;
use crate::actions::renderer::replaces;
use crate::actions::renderer::row_at;
use crate::actions::renderer::rows_of;
use crate::actions::renderer::spliced;
use crate::actions::states::States as ActionStates;
use crate::actions::utils::find_in_dir;
use crate::actions::utils::get_entries;
use crate::fs;
use crate::fs::DirProbe;
use crate::fs::model::resolvable;
use crate::path::FsPath;
use crate::states::States;
use vstd::prelude::*;

verus! {

/// Asks to expand or collapse the directory of the row at `line_idx`.
#[derive(Debug, Clone, Copy)]
pub struct ExpandDir {
    pub line_idx: LineIdx,
}

/// What a toggle has done so far.
#[derive(Debug)]
pub enum Expansion {
    /// The directory was expanded and is collapsed now; the patch takes its
    /// rows off the view.
    Collapsed(Patch),
    /// The directory was collapsed and counts as expanded now; its contents
    /// have to be read from disk before its rows can be shown.
    NeedsListing,
}

impl ExpandDir {
    /// The level and the path of the directory that is to be toggled, or
    /// `None` when the position names no row or the row is no directory.
    pub fn run(&self, states: &States) -> (r: Option<(Level, FsPath)>)
        ensures
            match row_at(states.actions.rendered_lines@, self.line_idx@) {
                Some(row) => if row.metadata.is_dir() {
                    r matches Some((level, path)) && level@ == row.level && path@ == row.path
                } else {
                    r is None
                },
                None => r is None,
            },
    {
        match states.actions.rendered_lines.row(self.line_idx) {
            Some(item) => {
                if item.metadata.is_dir() {
                    Some((item.level, item.path.clone()))
                } else {
                    None
                }
            },
            None => None,
        }
    }
}

/// Toggles the directory `path`. An expanded directory is collapsed at once:
/// it leaves the set of expanded directories and the rows below its own row
/// leave the display. A collapsed directory joins the set of expanded
/// directories, and the rows stay as they are until `show_children` is told
/// what the directory holds.
pub fn expand_dir(path: &FsPath, states: &mut ActionStates) -> (r: Expansion)
    ensures
        old(states).expanded_dir@.contains(path@) ==> {
            &&& r is Collapsed
            &&& r->Collapsed_0@ == (PatchView {
                start: body_start(old(states).rendered_lines@, path@),
                end: Some(block_end(old(states).rendered_lines@, path@)),
                lines: Seq::empty(),
            })
            &&& final(states).expanded_dir@ == old(states).expanded_dir@.remove(path@)
            &&& final(states).rendered_lines@ == spliced(
                old(states).rendered_lines@,
                body_start(old(states).rendered_lines@, path@),
                block_end(old(states).rendered_lines@, path@),
                Seq::empty(),
            )
        },
        !old(states).expanded_dir@.contains(path@) ==> {
            &&& r is NeedsListing
            &&& final(states).expanded_dir@ == old(states).expanded_dir@.insert(path@)
            &&& final(states).rendered_lines@ == old(states).rendered_lines@
        },
{
    if states.expanded_dir.contains(path) {
        states.expanded_dir.remove(path);
        proof {
            lemma_block(states.rendered_lines@, path@);
            states.rendered_lines.lemma_list();
        }
        let body = |lines: &Vec<Item>| -> (sel: Range<usize>)
            ensures
                sel.start == body_start(rows_of(lines@), path@),
                sel.end == block_end(rows_of(lines@), path@),
            {
                let range = find_in_dir(path, lines);
                if range.start == range.end {
                    range
                } else {
                    (range.start + 1)..range.end
                }
            };
        let p = states.rendered_lines.edit().remove_range(body);
        match p {
            Some(p) => Expansion::Collapsed(p),
            None => vstd::pervasive::unreached(),
        }
    } else {
        states.expanded_dir.insert(path.clone());
        Expansion::NeedsListing
    }
}

/// Shows what the directory `path` holds, after it has been toggled to
/// expanded and read from disk: the cache takes in `fresh`, and the rows of
/// the directory come on display right after the row at `line_idx`. If that
/// position names no row any more, the rows stay as they are.
pub fn show_children(
    line_idx: LineIdx,
    level: Level,
    path: &FsPath,
    probes: &Vec<DirProbe>,
    fresh: fs::Entries,
    states: &mut States,
) -> (p: Option<Patch>)
    requires
        old(states).wf(),
        fresh.wf(),
        probes@.len() == path@.len(),
        resolvable(old(states).root_file@, path@, 0),
        level@ < usize::MAX,
    ensures
        final(states).wf(),
        final(states).root_file@ == reread(old(states).root_file@, path@, probes@, fresh@),
        final(states).actions.expanded_dir@ == old(states).actions.expanded_dir@,
        final(states).actions.rendered_lines@ == patched_by(old(states).actions.rendered_lines@, p),
        match index_at(old(states).actions.rendered_lines@.len() as int, line_idx@) {
            Some(i) => {
                &&& replaces(
                    p,
                    i + 1,
                    i + 1,
                    flattened(
                        reread_dir(old(states).root_file@, path@, probes@, fresh@),
                        path@,
                        level@,
                        old(states).actions.expanded_dir@,
                    ),
                )
                &&& final(states).actions.rendered_lines@ == spliced(
                    old(states).actions.rendered_lines@,
                    i + 1,
                    i + 1,
                    flattened(
                        reread_dir(old(states).root_file@, path@, probes@, fresh@),
                        path@,
                        level@,
                        old(states).actions.expanded_dir@,
                    ),
                )
            },
            None => {
                &&& p is None
                &&& final(states).actions.rendered_lines@ == old(states).actions.rendered_lines@
            },
        },
{
    let rows = {
        let mut dir = get_entries(&mut states.root_file, path, probes);
        dir.update_with_readdir(fresh);
        dir.flatten(level).filter(&states.actions.expanded_dir).collect()
    };
    let shown = states.actions.rendered_lines.len();
    match states.actions.rendered_lines.index(line_idx) {
        Some(i) => {
            let at = i + 1;
            let here = |lines: &Vec<Item>| -> (sel: Range<usize>)
                ensures
                    sel.start == at,
                    sel.end == at,
                { at..at };
            states.actions.rendered_lines.edit().replace_range(rows, here)
        },
        None => None,
    }
}

} // verus!
