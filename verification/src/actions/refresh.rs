//! The command that reads a directory, and what is expanded below it, from
//! disk again.
//!
//! The command is a walk: `run` names the directory, `walk` takes in what
//! it holds on disk, `visit` does the same for one directory below it and
//! says thereby which directories come next, and `finish` makes the display
//! anew. Between two steps the next directory of the walk is read from
//! disk; when the disk refuses, the walk ends there and `finish` is not
//! called.

use crate::actions::DirArg;
use crate::actions::listing::children_from;
use crate::actions::listing::descends;
use crate::actions::listing::dirs_from;
use crate::actions::listing::reread;
use crate::actions::listing::reread_dir;
use crate::actions::listing::whole_display;
use crate::actions::renderer::Level;
use crate::actions::renderer::Patch;
use crate::actions::renderer::PatchView;
use crate::actions::renderer::patched;
use crate::actions::states::States as ActionStates;
use crate::actions::utils::RefreshWalk;
use crate::actions::utils::render;
use crate::actions::utils::reread_children;
use crate::fs;
use crate::fs::DirProbe;
use crate::fs::Permissions;
use crate::fs::model::dir_at;
use crate::fs::model::opened;
use crate::fs::model::resolvable;
use crate::path::FsPath;
use crate::path::followed;
use crate::path::is_absolute;
use crate::states::States;
use vstd::prelude::*;

verus! {

/// Asks to read the directory `dir`, and what is expanded below it, again.
#[derive(Debug)]
pub struct Refresh {
    pub dir: DirArg,
}

impl Refresh {
    /// The directory that is to be refreshed. It counts as expanded from now
    /// on. `None`, and no change, when the command does not name a directory
    /// by an absolute path.
    pub fn run(&self, states: &mut ActionStates) -> (r: Option<FsPath>)
        ensures
            final(states).rendered_lines == old(states).rendered_lines,
            match r {
                Some(p) => {
                    &&& is_absolute(self.dir.bytes())
                    &&& p@ == followed(Seq::empty(), self.dir.bytes())
                    &&& final(states).expanded_dir@ == old(states).expanded_dir@.insert(p@)
                },
                None => {
                    &&& !is_absolute(self.dir.bytes())
                    &&& final(states).expanded_dir@ == old(states).expanded_dir@
                },
            },
    {
        match self.dir.as_path() {
            Some(dir) => {
                states.expanded_dir.insert(dir.clone());
                Some(dir)
            },
            None => None,
        }
    }

    /// Starts the walk at the directory `dir`: the cache takes in `fresh`,
    /// what the directory holds on disk, and the directories right below it
    /// are to be read next.
    pub fn walk(
        &self,
        dir: &FsPath,
        probes: &Vec<DirProbe>,
        fresh: fs::Entries,
        states: &mut States,
    ) -> (r: RefreshWalk)
        requires
            old(states).wf(),
            fresh.wf(),
            probes@.len() == dir@.len(),
            resolvable(old(states).root_file@, dir@, 0),
        ensures
            final(states).wf(),
            final(states).root_file@ == reread(old(states).root_file@, dir@, probes@, fresh@),
            final(states).actions == old(states).actions,
            r.pending() == dirs_from(
                children_from(reread_dir(old(states).root_file@, dir@, probes@, fresh@), dir@),
                0,
                1,
            ),
    {
        let children = reread_children(dir, probes, fresh, states);
        RefreshWalk::new(Level::base(), children)
    }

    /// Takes in what the directory `path` of the walk, which is shown at
    /// `level`, holds on disk. If the directory is expanded, and not too
    /// deep, its subdirectories are the next of the walk.
    pub fn visit(
        &self,
        walk: &mut RefreshWalk,
        level: Level,
        path: &FsPath,
        probes: &Vec<DirProbe>,
        fresh: fs::Entries,
        states: &mut States,
    )
        requires
            old(states).wf(),
            fresh.wf(),
            probes@.len() == path@.len(),
            resolvable(old(states).root_file@, path@, 0),
        ensures
            final(states).wf(),
            final(states).root_file@ == reread(old(states).root_file@, path@, probes@, fresh@),
            final(states).actions == old(states).actions,
            final(walk).pending() == if descends(
                path@,
                level@,
                old(states).actions.expanded_dir@,
            ) {
                dirs_from(
                    children_from(
                        reread_dir(old(states).root_file@, path@, probes@, fresh@),
                        path@,
                    ),
                    0,
                    level@ + 1,
                ) + old(walk).pending()
            } else {
                old(walk).pending()
            },
    {
        let children = reread_children(path, probes, fresh, states);
        walk.descend(level, path, children, &states.actions.expanded_dir);
    }

    /// Makes the display anew from what the cache knows of the directory
    /// `dir` after the walk.
    pub fn finish(
        &self,
        dir: &FsPath,
        probes: &Vec<DirProbe>,
        perm: Permissions,
        states: &mut States,
    ) -> (p: Patch)
        requires
            old(states).wf(),
            probes@.len() == dir@.len(),
            resolvable(old(states).root_file@, dir@, 0),
        ensures
            final(states).wf(),
            final(states).root_file@ == opened(old(states).root_file@, dir@, probes@, 0),
            final(states).actions.expanded_dir@ == old(states).actions.expanded_dir@,
            final(states).actions.rendered_lines@ == whole_display(
                dir_at(opened(old(states).root_file@, dir@, probes@, 0), dir@, 0),
                dir@,
                perm,
                old(states).actions.expanded_dir@,
            ),
            p@ == (PatchView { start: 0, end: None, lines: final(states).actions.rendered_lines@ }),
            final(states).actions.rendered_lines@ == patched(
                old(states).actions.rendered_lines@,
                p@,
            ),
    {
        render(dir, probes, perm, states)
    }
}

} // verus!
