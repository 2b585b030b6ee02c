//! The commands of the explorer, each as the decisions it takes between the
//! moments at which something outside has to be done.

pub mod blocks;
pub mod consistency;
pub mod create_entry;
pub mod delete_entry;
pub mod expand_dir;
pub mod get_dir;
pub mod get_file_path;
pub mod listing;
pub mod move_to_parent;
pub mod new_filer;
pub mod open_file;
pub mod open_or_expand;
pub mod refresh;
pub mod rename_entry;
pub mod renderer;
pub mod states;
pub mod utils;

use crate::path::FsPath;
use crate::path::followed;
use crate::path::is_absolute;
use vstd::prelude::*;

verus! {

/// A directory as a command names it: the text of an absolute path.
#[derive(Debug, PartialEq, Eq)]
pub struct DirArg(pub String);

impl DirArg {
    /// The bytes of the text.
    pub open spec fn bytes(&self) -> Seq<u8> {
        vstd::utf8::encode_utf8(self.0@)
    }

    /// The directory that the text names, or `None` when the text does not
    /// start at the root.
    pub fn as_path(&self) -> (r: Option<FsPath>)
        ensures
            match r {
                Some(p) => is_absolute(self.bytes()) && p@ == followed(Seq::empty(), self.bytes()),
                None => !is_absolute(self.bytes()),
            },
    {
        FsPath::parse(self.0.as_str().as_bytes())
    }
}

impl From<String> for DirArg {
    fn from(value: String) -> (r: Self) {
        Self(value)
    }
}

impl vstd::std_specs::convert::FromSpecImpl<String> for DirArg {
    open spec fn obeys_from_spec() -> bool {
        true
    }

    open spec fn from_spec(value: String) -> Self {
        DirArg(value)
    }
}

} // verus!
