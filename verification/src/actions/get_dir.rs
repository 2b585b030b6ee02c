//! The query for the directory of a row.

use crate::actions::renderer::LineIdx;
use crate::actions::renderer::Row;
use crate::actions::renderer::row_at;
use crate::path::FsPath;
use crate::states::States;
use vstd::prelude::*;

verus! {

/// Asks for the directory that the row at `line_idx` stands for or lies in.
#[derive(Debug, Clone, Copy)]
pub struct GetDir {
    pub line_idx: LineIdx,
}

/// The directory of a row: its own path if it stands for a directory, else
/// the path of the directory that holds it, which the root does not have.
pub open spec fn dir_of(row: Row) -> Option<Seq<Seq<u8>>> {
    if row.metadata.is_dir() {
        Some(row.path)
    } else if row.path.len() > 0 {
        Some(row.path.drop_last())
    } else {
        None
    }
}

impl GetDir {
    /// The directory of the row, or `None` when the position names no row or
    /// the row has no directory.
    pub fn run(&self, states: &States) -> (r: Option<FsPath>)
        ensures
            match row_at(states.actions.rendered_lines@, self.line_idx@) {
                Some(row) => match dir_of(row) {
                    Some(dir) => r is Some && r->0@ == dir,
                    None => r is None,
                },
                None => r is None,
            },
    {
        match states.actions.rendered_lines.row(self.line_idx) {
            Some(item) => {
                if item.metadata.is_dir() {
                    Some(item.path.clone())
                } else {
                    item.path.parent()
                }
            },
            None => None,
        }
    }
}

} // verus!
