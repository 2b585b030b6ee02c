//! The command that opens the file of a row.

use crate::actions::renderer::LineIdx;
use crate::actions::renderer::row_at;
use crate::path::FsPath;
use crate::states::States;
use vstd::prelude::*;

verus! {

/// Asks to open the file that the row at `line_idx` stands for.
#[derive(Debug, Clone, Copy)]
pub struct OpenFile {
    pub line_idx: LineIdx,
}

impl OpenFile {
    /// The path of the file that is to be opened, or `None` when the position
    /// names no row or the row does not stand for a regular file.
    pub fn run(&self, states: &States) -> (r: Option<FsPath>)
        ensures
            match row_at(states.actions.rendered_lines@, self.line_idx@) {
                Some(row) => if row.metadata.is_regular() {
                    r is Some && r->0@ == row.path
                } else {
                    r is None
                },
                None => r is None,
            },
    {
        match states.actions.rendered_lines.row(self.line_idx) {
            Some(item) => {
                if item.metadata.is_regular() {
                    Some(item.path.clone())
                } else {
                    None
                }
            },
            None => None,
        }
    }
}

} // verus!
