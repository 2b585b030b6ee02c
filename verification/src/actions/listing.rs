//! The display as a mathematical value: which rows a directory puts on
//! display when some of the directories below it are expanded, and where the
//! rows of a directory stand among the rows on display.

use crate::actions::renderer::FileType;
use crate::actions::renderer::MAX_LEVEL;
use crate::actions::renderer::Metadata;
use crate::actions::renderer::Row;
use crate::fs::DirProbe;
use crate::fs::Permissions;
use crate::fs::model::Node;
use crate::fs::model::dir_at;
use crate::fs::model::dir_children;
use crate::fs::model::node_wf;
use crate::fs::model::opened;
use crate::fs::model::reconciled;
use crate::fs::model::resolved;
use crate::fs::model::with_dir_at;
use crate::fs::no_permissions;
use vstd::prelude::*;

verus! {

/// What a row says of the node it stands for.
pub open spec fn metadata_of(n: Node) -> Metadata {
    match n {
        Node::Regular { perm } => Metadata { perm, file_type: FileType::Regular },
        Node::Directory { perm, .. } => Metadata { perm, file_type: FileType::Directory },
        Node::Link { target } => match resolved(*target) {
            Node::Regular { perm } => Metadata { perm, file_type: FileType::LinkRegular },
            Node::Directory { perm, .. } => Metadata { perm, file_type: FileType::LinkDirectory },
            _ => Metadata { perm: no_permissions(), file_type: FileType::LinkOther },
        },
        Node::Other => Metadata { perm: no_permissions(), file_type: FileType::Other },
    }
}

/// The row that shows the node `n` at `path`, `level` levels deep.
pub open spec fn row_of(level: nat, path: Seq<Seq<u8>>, n: Node) -> Row {
    Row { level, path, metadata: metadata_of(n) }
}

/// Whether a listing goes on below a directory at `path` that is shown at
/// `level`: the directory is expanded and the listing is not too deep yet.
pub open spec fn descends(path: Seq<Seq<u8>>, level: nat, expanded: Set<Seq<Seq<u8>>>) -> bool {
    expanded.contains(path) && level < MAX_LEVEL
}

/// The rows below the node `n`, which is shown at `path` and `level`: the
/// rows of its children, one level deeper, if it is a directory or leads to
/// one.
pub open spec fn rows_below(
    n: Node,
    path: Seq<Seq<u8>>,
    level: nat,
    expanded: Set<Seq<Seq<u8>>>,
) -> Seq<Row>
    decreases n, 0nat,
{
    match n {
        Node::Directory { children, .. } => rows_from(children, 0, path, level + 1, expanded),
        Node::Link { target } => rows_below(*target, path, level, expanded),
        _ => Seq::empty(),
    }
}

/// The rows of the children `c[i..]` of the directory `dir`, shown at
/// `level`: each child's own row, then, if the child is an expanded
/// directory, the rows below it.
pub open spec fn rows_from(
    c: Seq<(Seq<u8>, Node)>,
    i: int,
    dir: Seq<Seq<u8>>,
    level: nat,
    expanded: Set<Seq<Seq<u8>>>,
) -> Seq<Row>
    decreases c, c.len() - i,
{
    if 0 <= i < c.len() {
        block(c[i].0, c[i].1, dir, level, expanded) + rows_from(c, i + 1, dir, level, expanded)
    } else {
        Seq::empty()
    }
}

/// The row of the child `name` of `dir`, which is the node `n`, and the rows
/// below it if it is an expanded directory.
pub open spec fn block(
    name: Seq<u8>,
    n: Node,
    dir: Seq<Seq<u8>>,
    level: nat,
    expanded: Set<Seq<Seq<u8>>>,
) -> Seq<Row>
    decreases n, 1nat,
{
    seq![row_of(level, dir.push(name), n)] + if descends(dir.push(name), level, expanded) {
        rows_below(n, dir.push(name), level, expanded)
    } else {
        Seq::empty()
    }
}

/// The rows that the directory `dir`, shown at `level` and holding the
/// children `c`, puts on display below its own row.
pub open spec fn flattened(
    c: Seq<(Seq<u8>, Node)>,
    dir: Seq<Seq<u8>>,
    level: nat,
    expanded: Set<Seq<Seq<u8>>>,
) -> Seq<Row> {
    rows_from(c, 0, dir, level + 1, expanded)
}

/// The rows below a node are the rows of the children of the directory that
/// it is or leads to.
pub proof fn lemma_rows_below(
    n: Node,
    path: Seq<Seq<u8>>,
    level: nat,
    expanded: Set<Seq<Seq<u8>>>,
)
    ensures
        rows_below(n, path, level, expanded) == match dir_children(n) {
            Some(c) => rows_from(c, 0, path, level + 1, expanded),
            None => Seq::empty(),
        },
    decreases n,
{
    match n {
        Node::Link { target } => lemma_rows_below(*target, path, level, expanded),
        _ => {},
    }
}

/// The node, without children of its own, that stands for something on disk
/// of which `meta` is known.
pub open spec fn fresh_node(meta: Metadata) -> Node {
    match meta.file_type {
        FileType::Regular => Node::Regular { perm: meta.perm },
        FileType::Directory => Node::Directory { perm: meta.perm, children: Seq::empty() },
        FileType::LinkRegular => Node::Link {
            target: Box::new(Node::Regular { perm: meta.perm }),
        },
        FileType::LinkDirectory => Node::Link {
            target: Box::new(Node::Directory { perm: meta.perm, children: Seq::empty() }),
        },
        FileType::LinkOther => Node::Link { target: Box::new(Node::Other) },
        FileType::Other => Node::Other,
    }
}

/// A row shows of a fresh node the kind that the node was made from, and,
/// for a file or a directory, the permissions too.
pub proof fn lemma_fresh_node_metadata(meta: Metadata)
    ensures
        metadata_of(fresh_node(meta)).file_type == meta.file_type,
        meta.is_regular() || meta.is_dir() ==> metadata_of(fresh_node(meta)) == meta,
        node_wf(fresh_node(meta)),
{
    reveal_with_fuel(node_wf, 2);
}

/// The first index from `i` on at which a row at or below `prefix` stands,
/// or the number of rows if there is none.
pub open spec fn first_in(rows: Seq<Row>, prefix: Seq<Seq<u8>>, i: int) -> int
    decreases rows.len() - i,
{
    if 0 <= i < rows.len() && !prefix.is_prefix_of(rows[i].path) {
        first_in(rows, prefix, i + 1)
    } else {
        i
    }
}

/// The first index from `i` on at which a row stands that is not at or below
/// `prefix`, or the number of rows if there is none.
pub open spec fn first_out(rows: Seq<Row>, prefix: Seq<Seq<u8>>, i: int) -> int
    decreases rows.len() - i,
{
    if 0 <= i < rows.len() && prefix.is_prefix_of(rows[i].path) {
        first_out(rows, prefix, i + 1)
    } else {
        i
    }
}

/// Where the first run of rows at or below `prefix` starts.
pub open spec fn block_start(rows: Seq<Row>, prefix: Seq<Seq<u8>>) -> int {
    first_in(rows, prefix, 0)
}

/// Where the first run of rows at or below `prefix` ends.
pub open spec fn block_end(rows: Seq<Row>, prefix: Seq<Seq<u8>>) -> int {
    first_out(rows, prefix, block_start(rows, prefix))
}

/// The cached children of the directory `path` once it has been opened in
/// the cache `root` and brought up to date with `fresh`.
pub open spec fn reread_dir(
    root: Seq<(Seq<u8>, Node)>,
    path: Seq<Seq<u8>>,
    probes: Seq<DirProbe>,
    fresh: Seq<(Seq<u8>, Node)>,
) -> Seq<(Seq<u8>, Node)> {
    reconciled(dir_at(opened(root, path, probes, 0), path, 0), fresh)
}

/// The cache `root` once the directory `path` has been opened in it and
/// brought up to date with `fresh`.
pub open spec fn reread(
    root: Seq<(Seq<u8>, Node)>,
    path: Seq<Seq<u8>>,
    probes: Seq<DirProbe>,
    fresh: Seq<(Seq<u8>, Node)>,
) -> Seq<(Seq<u8>, Node)> {
    with_dir_at(opened(root, path, probes, 0), path, 0, reread_dir(root, path, probes, fresh))
}

/// Where the rows strictly below the directory `path` start: after its own
/// row, if it has a run of rows at all.
pub open spec fn body_start(rows: Seq<Row>, path: Seq<Seq<u8>>) -> int {
    if block_start(rows, path) == block_end(rows, path) {
        block_start(rows, path)
    } else {
        block_start(rows, path) + 1
    }
}

/// The children `c[i..]` of the directory `dir`, each as its path and kind.
pub open spec fn children_from(c: Seq<(Seq<u8>, Node)>, dir: Seq<Seq<u8>>) -> Seq<
    (Seq<Seq<u8>>, FileType),
> {
    Seq::new(c.len(), |i: int| (dir.push(c[i].0), metadata_of(c[i].1).file_type))
}

/// The row of the directory that the display starts from.
pub open spec fn root_row(dir: Seq<Seq<u8>>, perm: Permissions) -> Row {
    Row { level: 0, path: dir, metadata: Metadata { perm, file_type: FileType::Directory } }
}

/// Everything that is on display for the directory `dir` with the cached
/// children `c`: its own row, then the rows of what is expanded below it.
pub open spec fn whole_display(
    c: Seq<(Seq<u8>, Node)>,
    dir: Seq<Seq<u8>>,
    perm: Permissions,
    expanded: Set<Seq<Seq<u8>>>,
) -> Seq<Row> {
    seq![root_row(dir, perm)] + flattened(c, dir, 0, expanded)
}

/// Whether something of this kind is a directory, reached through a link or
/// not.
pub open spec fn is_dir_kind(kind: FileType) -> bool {
    kind is Directory || kind is LinkDirectory
}

/// The directories among the children `c[i..]`, each with the level `level`.
pub open spec fn dirs_from(c: Seq<(Seq<Seq<u8>>, FileType)>, i: int, level: nat) -> Seq<
    (nat, Seq<Seq<u8>>),
>
    decreases c.len() - i,
{
    if 0 <= i < c.len() {
        (if is_dir_kind(c[i].1) {
            seq![(level, c[i].0)]
        } else {
            Seq::empty()
        }) + dirs_from(c, i + 1, level)
    } else {
        Seq::empty()
    }
}

} // verus!
