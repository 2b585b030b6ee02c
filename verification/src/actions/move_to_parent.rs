//! The command that moves the display up to the directory above the one it
//! starts from.

use crate::actions::DirArg;
use crate::actions::listing::reread;
use crate::actions::listing::reread_dir;
use crate::actions::listing::whole_display;
use crate::actions::renderer::Patch;
use crate::actions::renderer::PatchView;
use crate::actions::renderer::patched;
use crate::actions::states::States as ActionStates;
use crate::actions::utils::reread_and_render;
use crate::fs;
use crate::fs::DirProbe;
use crate::fs::Permissions;
use crate::fs::model::resolvable;
use crate::path::FsPath;
use crate::path::followed;
use crate::path::is_absolute;
use crate::states::States;
use vstd::prelude::*;

verus! {

/// Asks to show the directory above `dir`.
#[derive(Debug)]
pub struct MoveToParent {
    pub dir: DirArg,
}

impl MoveToParent {
    /// The directory above the one that the command names, if the command
    /// names a directory and that directory is not the root.
    pub open spec fn target(&self) -> Option<Seq<Seq<u8>>> {
        if is_absolute(self.dir.bytes()) && followed(Seq::empty(), self.dir.bytes()).len() > 0 {
            Some(followed(Seq::empty(), self.dir.bytes()).drop_last())
        } else {
            None
        }
    }

    /// The directory that is to be read from disk and shown. It counts as
    /// expanded from now on. `None`, and no change, when there is no such
    /// directory.
    pub fn run(&self, states: &mut ActionStates) -> (r: Option<FsPath>)
        ensures
            final(states).rendered_lines == old(states).rendered_lines,
            match self.target() {
                Some(parent) => {
                    &&& r is Some
                    &&& r->0@ == parent
                    &&& final(states).expanded_dir@ == old(states).expanded_dir@.insert(parent)
                },
                None => r is None && final(states).expanded_dir@ == old(states).expanded_dir@,
            },
    {
        match self.dir.as_path() {
            Some(dir) => {
                match dir.parent() {
                    Some(parent) => {
                        states.expanded_dir.insert(parent.clone());
                        Some(parent)
                    },
                    None => None,
                }
            },
            None => None,
        }
    }

    /// Shows the directory `parent` after it has been read from disk: the
    /// cache takes in `fresh`, and the display is made anew from the row of
    /// the directory, with the permissions `perm`, and what is expanded
    /// below it.
    pub fn commit(
        &self,
        parent: &FsPath,
        probes: &Vec<DirProbe>,
        fresh: fs::Entries,
        perm: Permissions,
        states: &mut States,
    ) -> (p: Patch)
        requires
            old(states).wf(),
            fresh.wf(),
            probes@.len() == parent@.len(),
            resolvable(old(states).root_file@, parent@, 0),
        ensures
            final(states).wf(),
            final(states).root_file@ == reread(old(states).root_file@, parent@, probes@, fresh@),
            final(states).actions.expanded_dir@ == old(states).actions.expanded_dir@,
            final(states).actions.rendered_lines@ == whole_display(
                reread_dir(old(states).root_file@, parent@, probes@, fresh@),
                parent@,
                perm,
                old(states).actions.expanded_dir@,
            ),
            p@ == (PatchView { start: 0, end: None, lines: final(states).actions.rendered_lines@ }),
            final(states).actions.rendered_lines@ == patched(
                old(states).actions.rendered_lines@,
                p@,
            ),
    {
        reread_and_render(parent, probes, fresh, perm, states)
    }
}

} // verus!
