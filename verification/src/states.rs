//! Everything that the explorer remembers between two commands.

use crate::actions::renderer::Items;
use crate::actions::states::ExpendedDir;
use crate::actions::states::States as ActionStates;
use crate::fs::RootFile;
use vstd::prelude::*;

verus! {

/// The cache of the filesystem, the rows on display and the expanded
/// directories.
#[derive(Debug)]
pub struct States {
    pub root_file: RootFile,
    pub actions: ActionStates,
}

impl States {
    /// The cache is in order.
    pub open spec fn wf(&self) -> bool {
        self.root_file.wf()
    }

    /// Nothing is cached, nothing is on display and nothing is expanded.
    pub fn new() -> (r: Self)
        ensures
            r.wf(),
            r.root_file@ == Seq::<(Seq<u8>, crate::fs::model::Node)>::empty(),
            r.actions.rendered_lines@ == Seq::<crate::actions::renderer::Row>::empty(),
            r.actions.expanded_dir@ == Set::<Seq<Seq<u8>>>::empty(),
    {
        States {
            root_file: RootFile::new(),
            actions: ActionStates { rendered_lines: Items::new(), expanded_dir: ExpendedDir::new() },
        }
    }
}

impl Default for States {
    fn default() -> (r: Self)
        ensures
            r.wf(),
            r.root_file@ == Seq::<(Seq<u8>, crate::fs::model::Node)>::empty(),
            r.actions.rendered_lines@ == Seq::<crate::actions::renderer::Row>::empty(),
            r.actions.expanded_dir@ == Set::<Seq<Seq<u8>>>::empty(),
    {
        States::new()
    }
}

} // verus!
