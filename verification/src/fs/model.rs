//! The cache as a mathematical value: a cached node, the children of a
//! directory as a list in the order of their names, and what the operations
//! of the cache make of them.

use crate::fs::DirProbe;
use crate::fs::Permissions;
use crate::path::name_lt;
use vstd::prelude::*;

verus! {

/// A cached filesystem node, as a mathematical value.
pub enum Node {
    /// A regular file.
    Regular { perm: Permissions },
    /// A directory with its cached children, in the order of their names.
    Directory { perm: Permissions, children: Seq<(Seq<u8>, Node)> },
    /// A symbolic link with what it points to.
    Link { target: Box<Node> },
    /// Anything else: a socket, a device.
    Other,
}

/// The node at the end of a chain of links.
pub open spec fn resolved(n: Node) -> Node
    decreases n,
{
    match n {
        Node::Link { target } => resolved(*target),
        _ => n,
    }
}

/// The node `n` with the end of its chain of links replaced by `r`.
pub open spec fn with_resolved(n: Node, r: Node) -> Node
    decreases n,
{
    match n {
        Node::Link { target } => Node::Link { target: Box::new(with_resolved(*target, r)) },
        _ => r,
    }
}

/// The children of the directory that `n` is or points to.
pub open spec fn dir_children(n: Node) -> Option<Seq<(Seq<u8>, Node)>> {
    match resolved(n) {
        Node::Directory { children, .. } => Some(children),
        _ => None,
    }
}

/// The node `n`, which is or points to a directory, with the children of that
/// directory replaced by `c`.
pub open spec fn with_dir_children(n: Node, c: Seq<(Seq<u8>, Node)>) -> Node {
    match resolved(n) {
        Node::Directory { perm, .. } => with_resolved(n, Node::Directory { perm, children: c }),
        _ => n,
    }
}

/// The first index from `i` on whose name is not before `name`.
pub open spec fn rank_from(c: Seq<(Seq<u8>, Node)>, name: Seq<u8>, i: int) -> int
    decreases c.len() - i,
{
    if 0 <= i < c.len() && name_lt(c[i].0, name) {
        rank_from(c, name, i + 1)
    } else {
        i
    }
}

/// The place of `name` among the children `c`: the first index whose name is
/// not before it.
pub open spec fn rank(c: Seq<(Seq<u8>, Node)>, name: Seq<u8>) -> int {
    rank_from(c, name, 0)
}

/// Whether `c` has a child called `name`.
pub open spec fn holds(c: Seq<(Seq<u8>, Node)>, name: Seq<u8>) -> bool {
    rank(c, name) < c.len() && c[rank(c, name)].0 == name
}

/// The child of `c` called `name`.
pub open spec fn lookup(c: Seq<(Seq<u8>, Node)>, name: Seq<u8>) -> Option<Node> {
    if holds(c, name) {
        Some(c[rank(c, name)].1)
    } else {
        None
    }
}

/// The children `c` with `name` now naming `n`, whether or not the name was
/// in use.
pub open spec fn put(c: Seq<(Seq<u8>, Node)>, name: Seq<u8>, n: Node) -> Seq<(Seq<u8>, Node)> {
    if holds(c, name) {
        c.update(rank(c, name), (name, n))
    } else {
        c.insert(rank(c, name), (name, n))
    }
}

/// The children `c` without the one called `name`.
pub open spec fn without(c: Seq<(Seq<u8>, Node)>, name: Seq<u8>) -> Seq<(Seq<u8>, Node)> {
    if holds(c, name) {
        c.remove(rank(c, name))
    } else {
        c
    }
}

/// The names of `c` are in strictly rising order; in particular no name
/// occurs twice.
pub open spec fn sorted(c: Seq<(Seq<u8>, Node)>) -> bool {
    forall|i: int, j: int| 0 <= i < j < c.len() ==> name_lt(#[trigger] c[i].0, #[trigger] c[j].0)
}

/// Every directory in `n` holds its children in strictly rising order.
pub open spec fn node_wf(n: Node) -> bool
    decreases n,
{
    match n {
        Node::Directory { children, .. } => {
            &&& sorted(children)
            &&& forall|i: int| 0 <= i < children.len() ==> node_wf(#[trigger] children[i].1)
        },
        Node::Link { target } => node_wf(*target),
        _ => true,
    }
}

/// The children `c` are in strictly rising order, and so is every directory
/// below them.
pub open spec fn children_wf(c: Seq<(Seq<u8>, Node)>) -> bool {
    &&& sorted(c)
    &&& forall|i: int| 0 <= i < c.len() ==> node_wf(#[trigger] c[i].1)
}

/// What a cached node becomes when the disk shows `new` under its name: a
/// directory that is still a directory keeps its cached children and takes
/// the new permissions, and so does the directory at the end of a link that
/// still leads to a directory; a link that leads elsewhere keeps its chain
/// and gets the new end; anything else is replaced.
pub open spec fn merged(old: Node, new: Node) -> Node {
    match (old, new) {
        (Node::Directory { children, .. }, Node::Directory { perm, .. }) => Node::Directory {
            perm,
            children,
        },
        (Node::Link { target: old_target }, Node::Link { target: new_target }) => Node::Link {
            target: Box::new(with_resolved(*old_target, merged_end(
                resolved(*old_target),
                resolved(*new_target),
            ))),
        },
        (_, _) => new,
    }
}

/// What the end of a cached chain of links becomes when the disk shows a link
/// that ends in `new`.
pub open spec fn merged_end(old: Node, new: Node) -> Node {
    match (old, new) {
        (Node::Directory { children, .. }, Node::Directory { perm, .. }) => Node::Directory {
            perm,
            children,
        },
        (_, _) => new,
    }
}

/// What stands under `name` after the cached children `old` have been
/// brought up to date with a directory that shows `fresh` under that name.
pub open spec fn reconciled_child(old: Seq<(Seq<u8>, Node)>, name: Seq<u8>, fresh: Node) -> Node {
    match lookup(old, name) {
        Some(cached) => merged(cached, fresh),
        None => fresh,
    }
}

/// The cached children `old` brought up to date with what the disk shows,
/// `fresh`: the names are those of the disk, and under each stands what
/// `reconciled_child` says.
pub open spec fn reconciled(old: Seq<(Seq<u8>, Node)>, fresh: Seq<(Seq<u8>, Node)>) -> Seq<
    (Seq<u8>, Node),
> {
    Seq::new(fresh.len(), |i: int| (fresh[i].0, reconciled_child(old, fresh[i].0, fresh[i].1)))
}

/// A directory made for a path that was not cached yet.
pub open spec fn fresh_dir(probe: DirProbe, c: Seq<(Seq<u8>, Node)>) -> Node {
    if probe.is_symlink {
        Node::Link { target: Box::new(Node::Directory { perm: probe.perm, children: c }) }
    } else {
        Node::Directory { perm: probe.perm, children: c }
    }
}

/// The children `c` with a directory under `name`: the one that is there, or
/// an empty one made from `probe`.
pub open spec fn ensured(c: Seq<(Seq<u8>, Node)>, name: Seq<u8>, probe: DirProbe) -> Seq<
    (Seq<u8>, Node),
> {
    if holds(c, name) {
        c
    } else {
        put(c, name, fresh_dir(probe, Seq::empty()))
    }
}

/// Whether the directory `path[i..]` below `c` can be opened: whatever is
/// cached on the way is a directory or leads to one.
pub open spec fn resolvable(c: Seq<(Seq<u8>, Node)>, path: Seq<Seq<u8>>, i: int) -> bool
    decreases path.len() - i,
{
    i >= path.len() || match lookup(c, path[i]) {
        Some(n) => dir_children(n) is Some && resolvable(dir_children(n)->0, path, i + 1),
        None => true,
    }
}

/// The children `c` after the directory `path[i..]` below them has been
/// opened: every directory on the way that was not cached has been made,
/// empty, from its probe.
pub open spec fn opened(
    c: Seq<(Seq<u8>, Node)>,
    path: Seq<Seq<u8>>,
    probes: Seq<DirProbe>,
    i: int,
) -> Seq<(Seq<u8>, Node)>
    decreases path.len() - i,
{
    if i >= path.len() {
        c
    } else {
        let e = ensured(c, path[i], probes[i]);
        let n = lookup(e, path[i])->0;
        put(e, path[i], with_dir_children(n, opened(dir_children(n)->0, path, probes, i + 1)))
    }
}

/// The children of the directory `path[i..]` below `c`, which is cached.
pub open spec fn dir_at(c: Seq<(Seq<u8>, Node)>, path: Seq<Seq<u8>>, i: int) -> Seq<
    (Seq<u8>, Node),
>
    decreases path.len() - i,
{
    if i >= path.len() {
        c
    } else {
        dir_at(dir_children(lookup(c, path[i])->0)->0, path, i + 1)
    }
}

/// The children `c` with `new` as the children of the directory `path[i..]`
/// below them, which is cached.
pub open spec fn with_dir_at(
    c: Seq<(Seq<u8>, Node)>,
    path: Seq<Seq<u8>>,
    i: int,
    new: Seq<(Seq<u8>, Node)>,
) -> Seq<(Seq<u8>, Node)>
    decreases path.len() - i,
{
    if i >= path.len() {
        new
    } else {
        let n = lookup(c, path[i])->0;
        put(c, path[i], with_dir_children(n, with_dir_at(dir_children(n)->0, path, i + 1, new)))
    }
}

/// Whether the directory `path[i..]` below `c` is cached.
pub open spec fn cached_at(c: Seq<(Seq<u8>, Node)>, path: Seq<Seq<u8>>, i: int) -> bool
    decreases path.len() - i,
{
    i >= path.len() || match lookup(c, path[i]) {
        Some(n) => dir_children(n) is Some && cached_at(dir_children(n)->0, path, i + 1),
        None => false,
    }
}

} // verus!
