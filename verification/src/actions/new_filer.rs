//! The command that starts a display for a directory.
//!
//! The directory is read and shown at once. Then the directories right below
//! it are read too, one after the other, so that expanding one of them later
//! finds the cache warm, and the display is made anew.

use crate::actions::DirArg;
use crate::actions::listing::children_from;
use crate::actions::listing::reread;
use crate::actions::listing::reread_dir;
use crate::actions::listing::whole_display;
use crate::actions::renderer::Patch;
use crate::actions::renderer::PatchView;
use crate::actions::renderer::patched;
use crate::actions::utils::Children;
use crate::actions::utils::cached_children;
use crate::actions::utils::render;
use crate::actions::utils::reread_and_render;
use crate::actions::utils::reread_children;
use crate::fs;
use crate::fs::DirProbe;
use crate::fs::Permissions;
use crate::fs::model::dir_at;
use crate::fs::model::opened;
use crate::fs::model::resolvable;
use crate::path::FsPath;
use crate::path::followed;
use crate::path::is_absolute;
use crate::states::States;
use vstd::prelude::*;

verus! {

/// Asks to show the directory `dir`.
#[derive(Debug)]
pub struct NewFiler {
    pub dir: DirArg,
}

impl NewFiler {
    /// The directory that is to be read from disk and shown, or `None` when
    /// the command does not name one by an absolute path.
    pub fn run(&self) -> (r: Option<FsPath>)
        ensures
            match r {
                Some(p) => is_absolute(self.dir.bytes()) && p@ == followed(
                    Seq::empty(),
                    self.dir.bytes(),
                ),
                None => !is_absolute(self.dir.bytes()),
            },
    {
        self.dir.as_path()
    }

    /// Shows the directory `dir` after it has been read from disk: the cache
    /// takes in `fresh`, and the display is made anew from the row of the
    /// directory, with the permissions `perm`, and what is expanded below it.
    pub fn render_new(
        &self,
        dir: &FsPath,
        probes: &Vec<DirProbe>,
        fresh: fs::Entries,
        perm: Permissions,
        states: &mut States,
    ) -> (p: Patch)
        requires
            old(states).wf(),
            fresh.wf(),
            probes@.len() == dir@.len(),
            resolvable(old(states).root_file@, dir@, 0),
        ensures
            final(states).wf(),
            final(states).root_file@ == reread(old(states).root_file@, dir@, probes@, fresh@),
            final(states).actions.expanded_dir@ == old(states).actions.expanded_dir@,
            final(states).actions.rendered_lines@ == whole_display(
                reread_dir(old(states).root_file@, dir@, probes@, fresh@),
                dir@,
                perm,
                old(states).actions.expanded_dir@,
            ),
            p@ == (PatchView { start: 0, end: None, lines: final(states).actions.rendered_lines@ }),
            final(states).actions.rendered_lines@ == patched(
                old(states).actions.rendered_lines@,
                p@,
            ),
    {
        reread_and_render(dir, probes, fresh, perm, states)
    }

    /// The children of the directory `dir` as the cache knows them; those
    /// among them that are directories are to be read from disk next.
    pub fn children(&self, dir: &FsPath, probes: &Vec<DirProbe>, states: &mut States) -> (r:
        Children)
        requires
            old(states).wf(),
            probes@.len() == dir@.len(),
            resolvable(old(states).root_file@, dir@, 0),
        ensures
            final(states).wf(),
            final(states).root_file@ == opened(old(states).root_file@, dir@, probes@, 0),
            final(states).actions == old(states).actions,
            r@ == children_from(
                dir_at(opened(old(states).root_file@, dir@, probes@, 0), dir@, 0),
                dir@,
            ),
    {
        cached_children(dir, probes, states)
    }

    /// Takes in what the directory `child`, right below the directory on
    /// display, holds on disk.
    pub fn preload(
        &self,
        child: &FsPath,
        probes: &Vec<DirProbe>,
        fresh: fs::Entries,
        states: &mut States,
    )
        requires
            old(states).wf(),
            fresh.wf(),
            probes@.len() == child@.len(),
            resolvable(old(states).root_file@, child@, 0),
        ensures
            final(states).wf(),
            final(states).root_file@ == reread(old(states).root_file@, child@, probes@, fresh@),
            final(states).actions == old(states).actions,
    {
        let _ = reread_children(child, probes, fresh, states);
    }

    /// Makes the display anew from what the cache knows of the directory
    /// `dir`.
    pub fn rerender(
        &self,
        dir: &FsPath,
        probes: &Vec<DirProbe>,
        perm: Permissions,
        states: &mut States,
    ) -> (p: Patch)
        requires
            old(states).wf(),
            probes@.len() == dir@.len(),
            resolvable(old(states).root_file@, dir@, 0),
        ensures
            final(states).wf(),
            final(states).root_file@ == opened(old(states).root_file@, dir@, probes@, 0),
            final(states).actions.expanded_dir@ == old(states).actions.expanded_dir@,
            final(states).actions.rendered_lines@ == whole_display(
                dir_at(opened(old(states).root_file@, dir@, probes@, 0), dir@, 0),
                dir@,
                perm,
                old(states).actions.expanded_dir@,
            ),
            p@ == (PatchView { start: 0, end: None, lines: final(states).actions.rendered_lines@ }),
            final(states).actions.rendered_lines@ == patched(
                old(states).actions.rendered_lines@,
                p@,
            ),
    {
        render(dir, probes, perm, states)
    }
}

} // verus!
