//! The model behind a directory-tree explorer: a lazily filled mirror of the
//! filesystem, the set of expanded directories, the rows that are on display,
//! and the edits that keep a line-addressed view in step with them.
//!
//! - `path`: absolute paths as lists of names, and their order.
//! - `fs`: the cache of filesystem nodes; `fs::model` is the cache as a
//!   mathematical value and `fs::lemmas` is what holds of it.
//! - `actions::renderer`: the rows on display and the edits that change
//!   them, each of which hands out the one patch for the view.
//! - `actions::listing`, `actions::utils`: which rows a directory puts on
//!   display, as a mathematical value and as the walk that computes it.
//! - `actions::blocks`, `actions::consistency`: why the rows of a directory
//!   form one run, and why the edits of the commands give the rows that
//!   listing everything anew would give.
//! - the other modules of `actions`: the commands. A command is taken in
//!   steps; between two steps the caller does what only the outside can do:
//!   read or change the disk, and tell the view.

pub mod actions;
pub mod fs;
pub mod path;
pub mod states;
