//! The command that creates a file or a directory.
//!
//! The command is taken in two steps. `run` says where the new entry is to
//! be made; once the disk holds it, `commit` puts it into the cache and on
//! display. When the disk refuses, `commit` is not called and nothing
//! changes.

use crate::actions::listing::row_of;
use crate::actions::renderer::Item;
use crate::actions::renderer::Level;
use crate::actions::renderer::LineIdx;
use crate::actions::renderer::Patch;
use crate::actions::renderer::PatchView;
use crate::actions::renderer::Row;
use crate::actions::renderer::patched;
use crate::actions::renderer::row_at;
use crate::actions::renderer::rows_of;
use crate::actions::utils::file_to_item;
use crate::actions::utils::get_entries;
use crate::fs::DirProbe;
use crate::fs::File;
use crate::fs::model::Node;
use crate::fs::model::dir_at;
use crate::fs::model::opened;
use crate::fs::model::put;
use crate::fs::model::resolvable;
use crate::fs::model::with_dir_at;
use crate::fs::owner_bits;
use crate::path::Component;
use crate::path::FsPath;
use crate::path::SEPARATOR;
use crate::path::followed;
use crate::path::path_lt;
use crate::states::States;
use vstd::prelude::*;

verus! {

/// The mode that a new directory is made with.
pub const DIRECTORY_MODE: u32 = 0o775;

/// The mode that a new file is made with.
pub const FILE_MODE: u32 = 0o664;

/// Asks to create an entry called `fname` in the directory of the row at
/// `line_idx`. A name that ends in `/` asks for a directory.
#[derive(Debug)]
pub struct CreateEntry {
    pub line_idx: LineIdx,
    pub fname: String,
}

/// Where a new entry is to be made.
#[derive(Debug)]
pub struct Entry {
    /// The directory that is to hold the entry.
    pub dir: FsPath,
    /// The path of the entry.
    pub file: FsPath,
    /// The level at which the row of the entry is shown.
    pub level: Level,
}

/// The last name that the textual path `text` leads to, or the empty name
/// when it leads to none.
pub open spec fn last_name(text: Seq<u8>) -> Seq<u8> {
    if followed(Seq::empty(), text).len() > 0 {
        followed(Seq::empty(), text).last()
    } else {
        Seq::empty()
    }
}

/// The last name that the textual path `text` leads to, or the empty name
/// when it leads to none.
pub fn safe_fname(text: &[u8]) -> (r: Component)
    ensures
        r@ == last_name(text@),
{
    let p = FsPath::from_root(text);
    match p.file_name() {
        Some(name) => name.clone(),
        None => {
            let empty: Vec<u8> = Vec::new();
            Component::from_slice(empty.as_slice())
        },
    }
}

/// The directory that a new entry goes to when the row `row` is selected,
/// and the level at which the entry is shown: the row's own directory, one
/// level deeper, if the row is a directory, else the directory that holds
/// the row, at the level of the row.
pub open spec fn place_of(row: Row) -> Option<(Seq<Seq<u8>>, nat)> {
    if row.metadata.is_dir() {
        if row.level < usize::MAX {
            Some((row.path, row.level + 1))
        } else {
            None
        }
    } else if row.path.len() > 0 {
        Some((row.path.drop_last(), row.level))
    } else {
        None
    }
}

/// The first index from `i` on whose row does not come before `path`, or the
/// number of rows if there is none.
pub open spec fn first_not_before(rows: Seq<Row>, path: Seq<Seq<u8>>, i: int) -> int
    decreases rows.len() - i,
{
    if 0 <= i < rows.len() && path_lt(rows[i].path, path) {
        first_not_before(rows, path, i + 1)
    } else {
        i
    }
}

/// The node that is cached for a new entry.
pub open spec fn new_node(directory: bool) -> Node {
    if directory {
        Node::Directory { perm: owner_bits(DIRECTORY_MODE), children: Seq::empty() }
    } else {
        Node::Regular { perm: owner_bits(FILE_MODE) }
    }
}

/// The cache `root` after the entry `file` has been put into the directory
/// `dir`, which was opened for it.
pub open spec fn remembered(
    root: Seq<(Seq<u8>, Node)>,
    dir: Seq<Seq<u8>>,
    probes: Seq<DirProbe>,
    file: Seq<Seq<u8>>,
    n: Node,
) -> Seq<(Seq<u8>, Node)> {
    let o = opened(root, dir, probes, 0);
    if file.len() > 0 {
        with_dir_at(o, dir, 0, put(dir_at(o, dir, 0), file.last(), n))
    } else {
        o
    }
}

/// Where the row of `path` belongs among `lines`: before the first row that
/// does not come before it.
pub fn insert_position(path: &FsPath, lines: &Vec<Item>) -> (r: usize)
    ensures
        r == first_not_before(rows_of(lines@), path@, 0),
        r <= lines@.len(),
{
    let ghost rows = rows_of(lines@);
    let mut i: usize = 0;
    while i < lines.len() && lines[i].path.lt(path)
        invariant
            i <= lines.len(),
            rows == rows_of(lines@),
            first_not_before(rows, path@, 0) == first_not_before(rows, path@, i as int),
        decreases lines.len() - i,
    {
        i += 1;
    }
    i
}

impl CreateEntry {
    /// The bytes of the name that was asked for.
    pub open spec fn name_bytes(&self) -> Seq<u8> {
        vstd::utf8::encode_utf8(self.fname@)
    }

    /// Whether a directory was asked for: the name ends in `/`.
    pub open spec fn wants_directory(&self) -> bool {
        self.name_bytes().len() > 0 && self.name_bytes().last() == SEPARATOR
    }

    /// Whether a directory was asked for.
    pub fn is_directory(&self) -> (r: bool)
        ensures
            r == self.wants_directory(),
    {
        let bytes = self.fname.as_str().as_bytes();
        bytes.len() > 0 && bytes[bytes.len() - 1] == SEPARATOR
    }

    /// The mode that the entry is to be made with on disk.
    pub fn mode(&self) -> (r: u32)
        ensures
            r == if self.wants_directory() {
                DIRECTORY_MODE
            } else {
                FILE_MODE
            },
    {
        if self.is_directory() {
            DIRECTORY_MODE
        } else {
            FILE_MODE
        }
    }

    /// Where the new entry is to be made, or `None` when the position names
    /// no row or the row offers no place for it.
    pub fn run(&self, states: &States) -> (r: Option<Entry>)
        ensures
            match row_at(states.actions.rendered_lines@, self.line_idx@) {
                Some(row) => match place_of(row) {
                    Some((dir, level)) => {
                        &&& r is Some
                        &&& r->0.dir@ == dir
                        &&& r->0.level@ == level
                        &&& r->0.file@ == dir.push(last_name(self.name_bytes()))
                    },
                    None => r is None,
                },
                None => r is None,
            },
    {
        let fname = safe_fname(self.fname.as_str().as_bytes());
        match states.actions.rendered_lines.row(self.line_idx) {
            Some(item) => {
                if item.metadata.is_dir() {
                    if item.level.to_num() < usize::MAX {
                        let dir = item.path.clone();
                        let file = dir.join(&fname);
                        Some(Entry { dir, file, level: item.level.increment() })
                    } else {
                        None
                    }
                } else {
                    match item.path.parent() {
                        Some(dir) => {
                            let file = dir.join(&fname);
                            Some(Entry { dir, file, level: item.level })
                        },
                        None => None,
                    }
                }
            },
            None => None,
        }
    }

    /// Takes the new entry in after the disk has made it: its row comes on
    /// display before the first row that does not come before it in the
    /// order of paths, its directory counts as expanded, and the cache
    /// holds it.
    pub fn commit(&self, entry: &Entry, probes: &Vec<DirProbe>, states: &mut States) -> (p: Patch)
        requires
            old(states).wf(),
            probes@.len() == entry.dir@.len(),
            resolvable(old(states).root_file@, entry.dir@, 0),
        ensures
            final(states).wf(),
            final(states).root_file@ == remembered(
                old(states).root_file@,
                entry.dir@,
                probes@,
                entry.file@,
                new_node(self.wants_directory()),
            ),
            final(states).actions.expanded_dir@ == old(states).actions.expanded_dir@.insert(
                entry.dir@,
            ),
            final(states).actions.rendered_lines@ == old(states).actions.rendered_lines@.insert(
                first_not_before(old(states).actions.rendered_lines@, entry.file@, 0),
                row_of(entry.level@, entry.file@, new_node(self.wants_directory())),
            ),
            p@ == (PatchView {
                start: first_not_before(old(states).actions.rendered_lines@, entry.file@, 0),
                end: Some(first_not_before(old(states).actions.rendered_lines@, entry.file@, 0)),
                lines: seq![row_of(entry.level@, entry.file@, new_node(self.wants_directory()))],
            }),
            final(states).actions.rendered_lines@ == patched(
                old(states).actions.rendered_lines@,
                p@,
            ),
    {
        let file = if self.is_directory() {
            File::empty_directory(DIRECTORY_MODE)
        } else {
            File::regular(FILE_MODE)
        };
        let item = file_to_item(entry.level, &entry.file, &file);
        proof {
            states.actions.rendered_lines.lemma_list();
        }
        let path = &entry.file;
        let place = |lines: &Vec<Item>| -> (pos: usize)
            ensures
                pos == first_not_before(rows_of(lines@), path@, 0),
                pos <= lines@.len(),
            { insert_position(path, lines) };
        let p = states.actions.rendered_lines.edit().insert_dyn(item, place);
        states.actions.expanded_dir.insert(entry.dir.clone());
        proof {
            crate::fs::lemmas::lemma_opened_unchanged(states.root_file@, entry.dir@, probes@);
        }
        {
            let mut dir = get_entries(&mut states.root_file, &entry.dir, probes);
            match entry.file.file_name() {
                Some(name) => {
                    dir.insert(name, file);
                },
                None => {},
            }
        }
        p
    }
}

} // verus!
