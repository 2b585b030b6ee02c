//! The command that opens a file or toggles a directory, whichever the row
//! stands for.

use crate::actions::renderer::Level;
use crate::actions::renderer::LineIdx;
use crate::actions::renderer::row_at;
use crate::path::FsPath;
use crate::states::States;
use vstd::prelude::*;

verus! {

/// Asks to open the row at `line_idx` if it is a file, and to expand or
/// collapse it if it is a directory.
#[derive(Debug, Clone, Copy)]
pub struct OpenOrExpand {
    pub line_idx: LineIdx,
}

/// What is to be done with a row.
#[derive(Debug)]
pub enum Choice {
    /// The file at this path is to be opened.
    Regular(FsPath),
    /// The directory at this path, shown at this level, is to be expanded or
    /// collapsed.
    Directory(Level, FsPath),
}

impl OpenOrExpand {
    /// What is to be done with the row, or `None` when the position names no
    /// row or the row stands for neither a regular file nor a directory.
    pub fn run(&self, states: &States) -> (r: Option<Choice>)
        ensures
            match row_at(states.actions.rendered_lines@, self.line_idx@) {
                Some(row) => if row.metadata.is_regular() {
                    r matches Some(Choice::Regular(p)) && p@ == row.path
                } else if row.metadata.is_dir() {
                    r matches Some(Choice::Directory(l, p)) && p@ == row.path && l@ == row.level
                } else {
                    r is None
                },
                None => r is None,
            },
    {
        match states.actions.rendered_lines.row(self.line_idx) {
            Some(item) => {
                if item.metadata.is_regular() {
                    Some(Choice::Regular(item.path.clone()))
                } else if item.metadata.is_dir() {
                    Some(Choice::Directory(item.level, item.path.clone()))
                } else {
                    None
                }
            },
            None => None,
        }
    }
}

} // verus!
