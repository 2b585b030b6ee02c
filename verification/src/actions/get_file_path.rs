//! The query for the path of a row.

use crate::actions::renderer::LineIdx;
use crate::actions::renderer::row_at;
use crate::path::FsPath;
use crate::states::States;
use vstd::prelude::*;

verus! {

/// Asks for the path of the row at `line_idx`.
#[derive(Debug, Clone, Copy)]
pub struct GetFilePath {
    pub line_idx: LineIdx,
}

impl GetFilePath {
    /// The path of the row, or `None` when the position names no row.
    pub fn run(&self, states: &States) -> (r: Option<FsPath>)
        ensures
            match row_at(states.actions.rendered_lines@, self.line_idx@) {
                Some(row) => r is Some && r->0@ == row.path,
                None => r is None,
            },
    {
        match states.actions.rendered_lines.row(self.line_idx) {
            Some(item) => Some(item.path.clone()),
            None => None,
        }
    }
}

} // verus!
