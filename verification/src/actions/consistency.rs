//! The display stays in step with the cache: putting the rows of a newly
//! expanded directory right below its row gives the same rows as listing
//! everything anew.

use crate::actions::blocks::below;
use crate::actions::blocks::lemma_block;
use crate::actions::blocks::lemma_block_shape;
use crate::actions::blocks::lemma_flattened_contiguous;
use crate::actions::blocks::lemma_whole_display_contiguous;
use crate::actions::create_entry::first_not_before;
use crate::actions::create_entry::remembered;
use crate::actions::delete_entry::forgotten;
use crate::actions::listing::block;
use crate::actions::listing::block_end;
use crate::actions::listing::block_start;
use crate::actions::listing::body_start;
use crate::actions::listing::descends;
use crate::actions::listing::flattened;
use crate::actions::listing::lemma_rows_below;
use crate::actions::listing::metadata_of;
use crate::actions::listing::reread;
use crate::actions::listing::reread_dir;
use crate::actions::listing::row_of;
use crate::actions::listing::rows_below;
use crate::actions::listing::rows_from;
use crate::actions::listing::whole_display;
use crate::actions::renderer::MAX_LEVEL;
use crate::actions::renderer::Row;
use crate::actions::renderer::spliced;
use crate::fs::DirProbe;
use crate::fs::Permissions;
use crate::fs::lemmas::lemma_dir_children_with;
use crate::fs::lemmas::lemma_put_rank;
use crate::fs::lemmas::lemma_rank;
use crate::fs::lemmas::lemma_resolved_with_resolved;
use crate::fs::lemmas::lemma_with_dir_at_same;
use crate::fs::model::Node;
use crate::fs::model::cached_at;
use crate::fs::model::children_wf;
use crate::fs::model::dir_at;
use crate::fs::model::dir_children;
use crate::fs::model::lookup;
use crate::fs::model::node_wf;
use crate::fs::model::opened;
use crate::fs::model::put;
use crate::fs::model::rank;
use crate::fs::model::resolved;
use crate::fs::model::with_dir_at;
use crate::fs::model::with_dir_children;
use crate::fs::model::without;
use crate::path::lemma_name_lt_irreflexive;
use crate::path::name_lt;
use crate::path::path_lt;
use crate::path::path_lt_from;
use crate::actions::rename_entry::expanded_after;
use crate::actions::rename_entry::lifted;
use crate::actions::rename_entry::listing_of;
use crate::actions::rename_entry::settled_in;
use crate::fs::lemmas::lemma_change_below;
use crate::fs::lemmas::lemma_with_dir_at_twice;
use vstd::prelude::*;

verus! {

/// The rows of the children `c[j..r]` of the directory `dir`, shown at
/// `level`.
pub open spec fn rows_between(
    c: Seq<(Seq<u8>, Node)>,
    j: int,
    r: int,
    dir: Seq<Seq<u8>>,
    level: nat,
    expanded: Set<Seq<Seq<u8>>>,
) -> Seq<Row>
    decreases r - j,
{
    if 0 <= j < r <= c.len() {
        block(c[j].0, c[j].1, dir, level, expanded) + rows_between(
            c,
            j + 1,
            r,
            dir,
            level,
            expanded,
        )
    } else {
        Seq::empty()
    }
}

/// Whether the row of `path` is among the rows that the children `c` of the
/// directory `path[..k]`, shown at `level`, put on display: every directory
/// on the way from there to `path` is cached and expanded, and none of them
/// is too deep for its children to be listed.
pub open spec fn shown(
    c: Seq<(Seq<u8>, Node)>,
    path: Seq<Seq<u8>>,
    k: int,
    level: nat,
    expanded: Set<Seq<Seq<u8>>>,
) -> bool
    decreases path.len() - k,
{
    &&& 0 <= k < path.len()
    &&& lookup(c, path[k]) is Some
    &&& k + 1 < path.len() ==> {
        &&& descends(path.subrange(0, k + 1), level, expanded)
        &&& dir_children(lookup(c, path[k])->0) is Some
        &&& shown(dir_children(lookup(c, path[k])->0)->0, path, k + 1, level + 1, expanded)
    }
}

/// The node that the children `c` of the directory `path[..k]` hold at
/// `path`.
pub open spec fn node_at(c: Seq<(Seq<u8>, Node)>, path: Seq<Seq<u8>>, k: int) -> Node
    decreases path.len() - k,
{
    if k + 1 < path.len() {
        node_at(dir_children(lookup(c, path[k])->0)->0, path, k + 1)
    } else {
        lookup(c, path[k])->0
    }
}

proof fn lemma_rows_split(
    c: Seq<(Seq<u8>, Node)>,
    j: int,
    r: int,
    dir: Seq<Seq<u8>>,
    level: nat,
    expanded: Set<Seq<Seq<u8>>>,
)
    requires
        0 <= j <= r <= c.len(),
    ensures
        rows_from(c, j, dir, level, expanded) == rows_between(c, j, r, dir, level, expanded)
            + rows_from(c, r, dir, level, expanded),
    decreases r - j,
{
    if j < r {
        lemma_rows_split(c, j + 1, r, dir, level, expanded);
    }
}

proof fn lemma_rows_from_agree(
    c1: Seq<(Seq<u8>, Node)>,
    c2: Seq<(Seq<u8>, Node)>,
    j: int,
    dir: Seq<Seq<u8>>,
    level: nat,
    expanded: Set<Seq<Seq<u8>>>,
)
    requires
        c1.len() == c2.len(),
        0 <= j,
        forall|m: int| j <= m < c1.len() ==> c1[m] == c2[m],
    ensures
        rows_from(c1, j, dir, level, expanded) == rows_from(c2, j, dir, level, expanded),
    decreases c1.len() - j,
{
    if j < c1.len() {
        lemma_rows_from_agree(c1, c2, j + 1, dir, level, expanded);
    }
}

proof fn lemma_rows_between_agree(
    c1: Seq<(Seq<u8>, Node)>,
    c2: Seq<(Seq<u8>, Node)>,
    j: int,
    r: int,
    dir: Seq<Seq<u8>>,
    level: nat,
    expanded: Set<Seq<Seq<u8>>>,
)
    requires
        r <= c1.len(),
        r <= c2.len(),
        0 <= j,
        forall|m: int| j <= m < r ==> c1[m] == c2[m],
    ensures
        rows_between(c1, j, r, dir, level, expanded) == rows_between(
            c2,
            j,
            r,
            dir,
            level,
            expanded,
        ),
    decreases r - j,
{
    if j < r {
        lemma_rows_between_agree(c1, c2, j + 1, r, dir, level, expanded);
    }
}

proof fn lemma_push_prefix(q: Seq<Seq<u8>>, name: Seq<u8>, p: Seq<Seq<u8>>)
    requires
        q.push(name).is_prefix_of(p),
    ensures
        q.is_prefix_of(p),
        p.len() > q.len(),
        p[q.len() as int] == name,
{
    let qn = q.push(name);
    assert(qn[q.len() as int] == name);
}

/// The two sets of expanded directories differ at most in `path`.
pub open spec fn same_but(
    one: Set<Seq<Seq<u8>>>,
    other: Set<Seq<Seq<u8>>>,
    path: Seq<Seq<u8>>,
) -> bool {
    forall|x: Seq<Seq<u8>>| x != path ==> one.contains(x) == other.contains(x)
}

/// The two sets of expanded directories hold the same paths at or below
/// `q`.
pub open spec fn same_under(
    one: Set<Seq<Seq<u8>>>,
    other: Set<Seq<Seq<u8>>>,
    q: Seq<Seq<u8>>,
) -> bool {
    forall|x: Seq<Seq<u8>>| q.is_prefix_of(x) ==> one.contains(x) == other.contains(x)
}

/// The two sets of expanded directories hold the same paths strictly below
/// `q`.
pub open spec fn same_below(
    one: Set<Seq<Seq<u8>>>,
    other: Set<Seq<Seq<u8>>>,
    q: Seq<Seq<u8>>,
) -> bool {
    forall|x: Seq<Seq<u8>>| below(q, x) ==> one.contains(x) == other.contains(x)
}

/// The two sets of expanded directories hold the same paths that are not at
/// or below `q`.
pub open spec fn same_outside(
    one: Set<Seq<Seq<u8>>>,
    other: Set<Seq<Seq<u8>>>,
    q: Seq<Seq<u8>>,
) -> bool {
    forall|x: Seq<Seq<u8>>| !q.is_prefix_of(x) ==> one.contains(x) == other.contains(x)
}

proof fn lemma_below_unaffected(
    n: Node,
    q: Seq<Seq<u8>>,
    level: nat,
    one: Set<Seq<Seq<u8>>>,
    other: Set<Seq<Seq<u8>>>,
)
    requires
        same_below(one, other, q),
    ensures
        rows_below(n, q, level, other) == rows_below(n, q, level, one),
    decreases n, 0nat,
{
    match n {
        Node::Directory { children, .. } => {
            lemma_subtree_unaffected(children, 0, q, level + 1, one, other);
        },
        Node::Link { target } => {
            lemma_below_unaffected(*target, q, level, one, other);
        },
        _ => {},
    }
}

proof fn lemma_subtree_unaffected(
    c: Seq<(Seq<u8>, Node)>,
    j: int,
    dir: Seq<Seq<u8>>,
    level: nat,
    one: Set<Seq<Seq<u8>>>,
    other: Set<Seq<Seq<u8>>>,
)
    requires
        same_below(one, other, dir),
        0 <= j,
    ensures
        rows_from(c, j, dir, level, other) == rows_from(c, j, dir, level, one),
    decreases c, c.len() - j,
{
    if j < c.len() {
        lemma_block_unaffected(c[j].0, c[j].1, dir, level, one, other);
        lemma_subtree_unaffected(c, j + 1, dir, level, one, other);
    }
}

proof fn lemma_block_unaffected(
    name: Seq<u8>,
    n: Node,
    dir: Seq<Seq<u8>>,
    level: nat,
    one: Set<Seq<Seq<u8>>>,
    other: Set<Seq<Seq<u8>>>,
)
    requires
        same_under(one, other, dir.push(name)),
    ensures
        block(name, n, dir, level, other) == block(name, n, dir, level, one),
    decreases n, 1nat,
{
    let q = dir.push(name);
    lemma_below_unaffected(n, q, level, one, other);
}

proof fn lemma_siblings_unaffected(
    c: Seq<(Seq<u8>, Node)>,
    j: int,
    dir: Seq<Seq<u8>>,
    level: nat,
    one: Set<Seq<Seq<u8>>>,
    other: Set<Seq<Seq<u8>>>,
)
    requires
        0 <= j,
        forall|m: int| j <= m < c.len() ==> same_under(one, other, dir.push((#[trigger] c[m]).0)),
    ensures
        rows_from(c, j, dir, level, other) == rows_from(c, j, dir, level, one),
    decreases c.len() - j,
{
    if j < c.len() {
        lemma_block_unaffected(c[j].0, c[j].1, dir, level, one, other);
        lemma_siblings_unaffected(c, j + 1, dir, level, one, other);
    }
}

proof fn lemma_siblings_before_unaffected(
    c: Seq<(Seq<u8>, Node)>,
    j: int,
    r: int,
    dir: Seq<Seq<u8>>,
    level: nat,
    one: Set<Seq<Seq<u8>>>,
    other: Set<Seq<Seq<u8>>>,
)
    requires
        0 <= j,
        r <= c.len(),
        forall|m: int| j <= m < r ==> same_under(one, other, dir.push((#[trigger] c[m]).0)),
    ensures
        rows_between(c, j, r, dir, level, other) == rows_between(c, j, r, dir, level, one),
    decreases r - j,
{
    if j < r {
        lemma_block_unaffected(c[j].0, c[j].1, dir, level, one, other);
        lemma_siblings_before_unaffected(c, j + 1, r, dir, level, one, other);
    }
}

/// New children for the directory that a node is or leads to do not change
/// what a row says of the node.
pub proof fn lemma_metadata_with_dir_children(n: Node, c: Seq<(Seq<u8>, Node)>)
    requires
        dir_children(n) is Some,
    ensures
        metadata_of(with_dir_children(n, c)) == metadata_of(n),
{
    match n {
        Node::Link { target } => {
            let perm = resolved(*target)->Directory_perm;
            lemma_resolved_with_resolved(*target, Node::Directory { perm, children: c });
        },
        _ => {},
    }
}

/// The level at which the row of `path` is shown when the children of
/// `path[..k]` are shown at `level`.
pub open spec fn level_of(path: Seq<Seq<u8>>, k: int, level: nat) -> nat {
    (level + path.len() - 1 - k) as nat
}

/// No row of a child whose name is not the next name on the way to `path` is
/// at or below `path`.
proof fn lemma_block_elsewhere(
    name: Seq<u8>,
    n: Node,
    dir: Seq<Seq<u8>>,
    level: nat,
    expanded: Set<Seq<Seq<u8>>>,
    path: Seq<Seq<u8>>,
)
    requires
        node_wf(n),
        dir.len() < path.len(),
        path[dir.len() as int] != name,
    ensures
        forall|x: int|
            0 <= x < block(name, n, dir, level, expanded).len() ==> !path.is_prefix_of(
                (#[trigger] block(name, n, dir, level, expanded)[x]).path,
            ),
{
    lemma_block_shape(name, n, dir, level, expanded);
}

proof fn lemma_siblings_elsewhere(
    c: Seq<(Seq<u8>, Node)>,
    j: int,
    dir: Seq<Seq<u8>>,
    level: nat,
    expanded: Set<Seq<Seq<u8>>>,
    path: Seq<Seq<u8>>,
)
    requires
        children_wf(c),
        0 <= j,
        dir.len() < path.len(),
        forall|m: int| j <= m < c.len() ==> (#[trigger] c[m]).0 != path[dir.len() as int],
    ensures
        forall|x: int|
            0 <= x < rows_from(c, j, dir, level, expanded).len() ==> !path.is_prefix_of(
                (#[trigger] rows_from(c, j, dir, level, expanded)[x]).path,
            ),
    decreases c.len() - j,
{
    if j < c.len() {
        lemma_block_elsewhere(c[j].0, c[j].1, dir, level, expanded, path);
        lemma_siblings_elsewhere(c, j + 1, dir, level, expanded, path);
    }
}

proof fn lemma_siblings_before_elsewhere(
    c: Seq<(Seq<u8>, Node)>,
    j: int,
    r: int,
    dir: Seq<Seq<u8>>,
    level: nat,
    expanded: Set<Seq<Seq<u8>>>,
    path: Seq<Seq<u8>>,
)
    requires
        children_wf(c),
        0 <= j,
        r <= c.len(),
        dir.len() < path.len(),
        forall|m: int| j <= m < r ==> (#[trigger] c[m]).0 != path[dir.len() as int],
    ensures
        forall|x: int|
            0 <= x < rows_between(c, j, r, dir, level, expanded).len() ==> !path.is_prefix_of(
                (#[trigger] rows_between(c, j, r, dir, level, expanded)[x]).path,
            ),
    decreases r - j,
{
    if j < r {
        lemma_block_elsewhere(c[j].0, c[j].1, dir, level, expanded, path);
        lemma_siblings_before_elsewhere(c, j + 1, r, dir, level, expanded, path);
    }
}

/// No row is at or below `path`.
pub open spec fn none_below(rows: Seq<Row>, path: Seq<Seq<u8>>) -> bool {
    forall|x: int| 0 <= x < rows.len() ==> !path.is_prefix_of((#[trigger] rows[x]).path)
}

/// Around the child on the way to `path`, the rows that a listing gives do
/// not change when the child gets another node and `path` joins or leaves
/// the expanded directories.
proof fn lemma_around_child(
    c: Seq<(Seq<u8>, Node)>,
    r: int,
    n2: Node,
    dir: Seq<Seq<u8>>,
    level: nat,
    one: Set<Seq<Seq<u8>>>,
    other: Set<Seq<Seq<u8>>>,
    path: Seq<Seq<u8>>,
)
    requires
        children_wf(c),
        same_outside(one, other, dir.push(c[r].0)),
        0 <= r < c.len(),
        dir.push(c[r].0).is_prefix_of(path),
    ensures
        rows_from(c, 0, dir, level, one) == rows_between(c, 0, r, dir, level, one) + block(
            c[r].0,
            c[r].1,
            dir,
            level,
            one,
        ) + rows_from(c, r + 1, dir, level, one),
        rows_from(c.update(r, (c[r].0, n2)), 0, dir, level, other) == rows_between(
            c,
            0,
            r,
            dir,
            level,
            one,
        ) + block(c[r].0, n2, dir, level, other) + rows_from(c, r + 1, dir, level, one),
        rows_from(c.remove(r), 0, dir, level, other) == rows_between(c, 0, r, dir, level, one)
            + rows_from(c, r + 1, dir, level, one),
        none_below(rows_between(c, 0, r, dir, level, one), path),
        none_below(rows_from(c, r + 1, dir, level, one), path),
{
    let name = c[r].0;
    let c2 = c.update(r, (name, n2));
    let c3 = c.remove(r);
    lemma_push_prefix(dir, name, path);
    assert forall|m: int| 0 <= m < c.len() && m != r implies (#[trigger] c[m]).0 != name by {
        lemma_name_lt_irreflexive(name);
    }
    lemma_siblings_before_elsewhere(c, 0, r, dir, level, one, path);
    lemma_siblings_elsewhere(c, r + 1, dir, level, one, path);
    assert forall|m: int| 0 <= m < c.len() && m != r implies same_under(
        one,
        other,
        dir.push((#[trigger] c[m]).0),
    ) by {
        assert forall|x: Seq<Seq<u8>>| dir.push(c[m].0).is_prefix_of(x) implies one.contains(x)
            == other.contains(x) by {
            lemma_push_prefix(dir, c[m].0, x);
            if dir.push(name).is_prefix_of(x) {
                lemma_push_prefix(dir, name, x);
            }
        }
    }
    lemma_rows_split(c, 0, r, dir, level, one);
    lemma_rows_split(c2, 0, r, dir, level, other);
    lemma_rows_split(c3, 0, r, dir, level, other);
    lemma_rows_between_agree(c2, c, 0, r, dir, level, other);
    lemma_rows_between_agree(c3, c, 0, r, dir, level, other);
    lemma_siblings_before_unaffected(c, 0, r, dir, level, one, other);
    lemma_rows_from_agree(c2, c, r + 1, dir, level, other);
    lemma_rows_from_shifted(c3, c, r, dir, level, other);
    lemma_siblings_unaffected(c, r + 1, dir, level, one, other);
}

proof fn lemma_rows_from_shifted(
    short: Seq<(Seq<u8>, Node)>,
    long: Seq<(Seq<u8>, Node)>,
    j: int,
    dir: Seq<Seq<u8>>,
    level: nat,
    expanded: Set<Seq<Seq<u8>>>,
)
    requires
        short.len() + 1 == long.len(),
        0 <= j,
        forall|m: int| j <= m < short.len() ==> short[m] == long[m + 1],
    ensures
        rows_from(short, j, dir, level, expanded) == rows_from(long, j + 1, dir, level, expanded),
    decreases short.len() - j,
{
    if j < short.len() {
        lemma_rows_from_shifted(short, long, j + 1, dir, level, expanded);
    }
}

/// One step of giving the directory `path` new children: the child of `c`
/// on the way is replaced, by a node that holds the new children if it is
/// the directory itself, else by a node that holds what the next step makes
/// of its children.
proof fn lemma_with_dir_at_step(
    c: Seq<(Seq<u8>, Node)>,
    path: Seq<Seq<u8>>,
    k: int,
    new: Seq<(Seq<u8>, Node)>,
)
    requires
        0 <= k < path.len(),
        lookup(c, path[k]) is Some,
    ensures
        0 <= rank(c, path[k]) < c.len(),
        c[rank(c, path[k])] == (path[k], lookup(c, path[k])->0),
        with_dir_at(c, path, k, new) == c.update(
            rank(c, path[k]),
            (
                path[k],
                with_dir_children(
                    lookup(c, path[k])->0,
                    if k + 1 < path.len() {
                        with_dir_at(dir_children(lookup(c, path[k])->0)->0, path, k + 1, new)
                    } else {
                        new
                    },
                ),
            ),
        ),
{
    lemma_rank(c, path[k]);
    let n = lookup(c, path[k])->0;
    if k + 1 >= path.len() {
        assert(with_dir_at(dir_children(n)->0, path, k + 1, new) == new);
    }
}

/// Putting the rows of a newly expanded directory right below its row gives
/// the display that listing everything anew gives. Here the display shows
/// the directory `top` with the children `c`; the row `i` is the row of the
/// directory `path` below `top`, which was collapsed; `new` are the children
/// that the directory has from now on.
pub proof fn lemma_expansion_in_step(
    c: Seq<(Seq<u8>, Node)>,
    top: Seq<Seq<u8>>,
    perm: Permissions,
    path: Seq<Seq<u8>>,
    expanded: Set<Seq<Seq<u8>>>,
    new: Seq<(Seq<u8>, Node)>,
    i: int,
)
    requires
        children_wf(c),
        top.is_prefix_of(path),
        shown(c, path, top.len() as int, 1, expanded),
        dir_children(node_at(c, path, top.len() as int)) is Some,
        !expanded.contains(path),
        path.len() - top.len() < MAX_LEVEL,
        0 <= i < whole_display(c, top, perm, expanded).len(),
        whole_display(c, top, perm, expanded)[i].path == path,
    ensures
        whole_display(c, top, perm, expanded)[i].level == path.len() - top.len(),
        whole_display(
            with_dir_at(c, path, top.len() as int, new),
            top,
            perm,
            expanded.insert(path),
        ) == spliced(
            whole_display(c, top, perm, expanded),
            i + 1,
            i + 1,
            flattened(new, path, (path.len() - top.len()) as nat, expanded.insert(path)),
        ),
{
    lemma_redraw_in_step(c, top, perm, path, expanded, expanded.insert(path), new);
    lemma_whole_display_contiguous(c, top, perm, expanded);
}

/// Opening a directory that is cached changes nothing.
pub proof fn lemma_opened_of_cached(
    c: Seq<(Seq<u8>, Node)>,
    path: Seq<Seq<u8>>,
    probes: Seq<DirProbe>,
    i: int,
)
    requires
        0 <= i <= path.len(),
        cached_at(c, path, i),
    ensures
        opened(c, path, probes, i) == c,
    decreases path.len() - i,
{
    if i < path.len() {
        let n = lookup(c, path[i])->0;
        let cc = dir_children(n)->0;
        lemma_opened_of_cached(cc, path, probes, i + 1);
        lemma_dir_children_with(n, cc);
        lemma_rank(c, path[i]);
    }
}

/// The directory `top` on the way to the cached directory `path` is cached
/// too, the rest of the way is cached below it, and new children for the
/// directory `path` reach the cache below `top` and nothing else of it.
pub proof fn lemma_dir_at_along(
    c: Seq<(Seq<u8>, Node)>,
    path: Seq<Seq<u8>>,
    top: Seq<Seq<u8>>,
    i: int,
    new: Seq<(Seq<u8>, Node)>,
)
    requires
        0 <= i <= top.len() <= path.len(),
        top == path.subrange(0, top.len() as int),
        cached_at(c, path, i),
    ensures
        cached_at(c, top, i),
        cached_at(dir_at(c, top, i), path, top.len() as int),
        dir_at(with_dir_at(c, path, i, new), top, i) == with_dir_at(
            dir_at(c, top, i),
            path,
            top.len() as int,
            new,
        ),
        dir_at(dir_at(c, top, i), path, top.len() as int) == dir_at(c, path, i),
    decreases top.len() - i,
{
    if i < top.len() {
        let n = lookup(c, path[i])->0;
        let cc = dir_children(n)->0;
        let inner = with_dir_at(cc, path, i + 1, new);
        lemma_dir_at_along(cc, path, top, i + 1, new);
        lemma_dir_children_with(n, inner);
        lemma_put_rank(c, path[i], with_dir_children(n, inner));
    }
}

/// What is cached at the end of a cached way is a directory.
pub proof fn lemma_node_at_cached(c: Seq<(Seq<u8>, Node)>, path: Seq<Seq<u8>>, k: int)
    requires
        0 <= k < path.len(),
        cached_at(c, path, k),
    ensures
        dir_children(node_at(c, path, k)) is Some,
        dir_at(c, path, k) == dir_children(node_at(c, path, k))->0,
    decreases path.len() - k,
{
    let cc = dir_children(lookup(c, path[k])->0)->0;
    if k + 1 < path.len() {
        lemma_node_at_cached(cc, path, k + 1);
    } else {
        assert(dir_at(cc, path, k + 1) == cc);
    }
}

/// After the children of a directory that was collapsed have been shown
/// below its row, the display is what listing everything anew would give.
/// Here the display shows the directory `top` as the cache `root` knows it,
/// with `before` as the expanded directories; the row `i` is the row of the
/// cached directory `path` below `top`, which joins the expanded
/// directories; `fresh` is what the disk holds of it.
pub proof fn lemma_show_children_in_step(
    root: Seq<(Seq<u8>, Node)>,
    top: Seq<Seq<u8>>,
    perm: Permissions,
    path: Seq<Seq<u8>>,
    probes: Seq<DirProbe>,
    fresh: Seq<(Seq<u8>, Node)>,
    before: Set<Seq<Seq<u8>>>,
    i: int,
)
    requires
        children_wf(root),
        cached_at(root, path, 0),
        top.is_prefix_of(path),
        top.len() < path.len(),
        path.len() - top.len() < MAX_LEVEL,
        shown(dir_at(root, top, 0), path, top.len() as int, 1, before),
        !before.contains(path),
        0 <= i < whole_display(dir_at(root, top, 0), top, perm, before).len(),
        whole_display(dir_at(root, top, 0), top, perm, before)[i].path == path,
    ensures
        spliced(
            whole_display(dir_at(root, top, 0), top, perm, before),
            i + 1,
            i + 1,
            flattened(
                reread_dir(root, path, probes, fresh),
                path,
                whole_display(dir_at(root, top, 0), top, perm, before)[i].level,
                before.insert(path),
            ),
        ) == whole_display(
            dir_at(reread(root, path, probes, fresh), top, 0),
            top,
            perm,
            before.insert(path),
        ),
{
    let k = top.len() as int;
    let new = reread_dir(root, path, probes, fresh);
    lemma_opened_of_cached(root, path, probes, 0);
    lemma_dir_at_along(root, path, top, 0, new);
    let c = dir_at(root, top, 0);
    lemma_node_at_cached(c, path, k);
    lemma_cached_wf(root, top, 0);
    lemma_expansion_in_step(c, top, perm, path, before, new, i);
}

/// The children of a cached directory in a well-formed cache are
/// well-formed.
pub proof fn lemma_cached_wf(c: Seq<(Seq<u8>, Node)>, path: Seq<Seq<u8>>, i: int)
    requires
        0 <= i <= path.len(),
        cached_at(c, path, i),
        children_wf(c),
    ensures
        children_wf(dir_at(c, path, i)),
    decreases path.len() - i,
{
    if i < path.len() {
        let n = lookup(c, path[i])->0;
        lemma_rank(c, path[i]);
        lemma_dir_children_with(n, dir_children(n)->0);
        lemma_cached_wf(dir_children(n)->0, path, i + 1);
    }
}

/// Taking the rows strictly below the row of an expanded directory off the
/// display gives the display that listing everything anew gives once the
/// directory is collapsed. Here the display shows the directory `top` with
/// the children `c`, and `path` is a cached directory below `top` whose row
/// is on display.
pub proof fn lemma_collapse_in_step(
    c: Seq<(Seq<u8>, Node)>,
    top: Seq<Seq<u8>>,
    perm: Permissions,
    path: Seq<Seq<u8>>,
    expanded: Set<Seq<Seq<u8>>>,
)
    requires
        children_wf(c),
        top.is_prefix_of(path),
        top.len() < path.len(),
        cached_at(c, path, top.len() as int),
        shown(c, path, top.len() as int, 1, expanded),
        expanded.contains(path),
    ensures
        spliced(
            whole_display(c, top, perm, expanded),
            body_start(whole_display(c, top, perm, expanded), path),
            block_end(whole_display(c, top, perm, expanded), path),
            Seq::empty(),
        ) == whole_display(c, top, perm, expanded.remove(path)),
{
    let k = top.len() as int;
    lemma_node_at_cached(c, path, k);
    lemma_with_dir_at_same(c, path, k);
    lemma_redraw_in_step(c, top, perm, path, expanded, expanded.remove(path), dir_at(c, path, k));
}

/// The children `c` of the directory `path[..k]` once the entry `path` has
/// been taken out of the directory that holds it.
pub open spec fn removed(c: Seq<(Seq<u8>, Node)>, path: Seq<Seq<u8>>, k: int) -> Seq<
    (Seq<u8>, Node),
>
    decreases path.len() - k,
{
    if k + 1 < path.len() {
        put(
            c,
            path[k],
            with_dir_children(
                lookup(c, path[k])->0,
                removed(dir_children(lookup(c, path[k])->0)->0, path, k + 1),
            ),
        )
    } else {
        without(c, path[k])
    }
}

/// Taking an entry out of the cache is giving the directory that holds it
/// the children that it has without the entry.
pub proof fn lemma_removed_is(c: Seq<(Seq<u8>, Node)>, path: Seq<Seq<u8>>, k: int)
    requires
        0 <= k < path.len(),
    ensures
        removed(c, path, k) == with_dir_at(
            c,
            path.drop_last(),
            k,
            without(dir_at(c, path.drop_last(), k), path.last()),
        ),
    decreases path.len() - k,
{
    if k + 1 < path.len() {
        lemma_removed_is(dir_children(lookup(c, path[k])->0)->0, path, k + 1);
    }
}

/// What is cached on a way that is on display, in a well-formed cache, is
/// well-formed.
proof fn lemma_node_at_wf(
    c: Seq<(Seq<u8>, Node)>,
    path: Seq<Seq<u8>>,
    k: int,
    level: nat,
    expanded: Set<Seq<Seq<u8>>>,
)
    requires
        children_wf(c),
        shown(c, path, k, level, expanded),
    ensures
        node_wf(node_at(c, path, k)),
    decreases path.len() - k,
{
    let n = lookup(c, path[k])->0;
    lemma_rank(c, path[k]);
    if k + 1 < path.len() {
        lemma_dir_children_with(n, dir_children(n)->0);
        lemma_node_at_wf(dir_children(n)->0, path, k + 1, level + 1, expanded);
    }
}

/// Deleting an entry whose row is on display changes the rows that a
/// listing gives in one place only: the rows of the entry are gone. Here `c`
/// are the children of `path[..k]`, shown at `level`. The lemma hands out
/// the rows before and after the rows of the entry.
pub proof fn lemma_removed_listing(
    c: Seq<(Seq<u8>, Node)>,
    path: Seq<Seq<u8>>,
    k: int,
    level: nat,
    expanded: Set<Seq<Seq<u8>>>,
    fewer: Set<Seq<Seq<u8>>>,
) -> (parts: (Seq<Row>, Seq<Row>))
    requires
        children_wf(c),
        shown(c, path, k, level, expanded),
        same_but(expanded, fewer, path),
    ensures
        rows_from(c, 0, path.subrange(0, k), level, expanded) == parts.0 + block(
            path.last(),
            node_at(c, path, k),
            path.drop_last(),
            level_of(path, k, level),
            expanded,
        ) + parts.1,
        rows_from(removed(c, path, k), 0, path.subrange(0, k), level, fewer) == parts.0 + parts.1,
        none_below(parts.0, path),
        none_below(parts.1, path),
    decreases path.len() - k,
{
    let dir = path.subrange(0, k);
    let name = path[k];
    let q = path.subrange(0, k + 1);
    lemma_rank(c, name);
    let r = rank(c, name);
    let n = lookup(c, name)->0;
    assert(q =~= dir.push(name));
    let before = rows_between(c, 0, r, dir, level, expanded);
    let after = rows_from(c, r + 1, dir, level, expanded);
    if k + 1 < path.len() {
        let cc = dir_children(n)->0;
        let inner = removed(cc, path, k + 1);
        let n2 = with_dir_children(n, inner);
        lemma_around_child(c, r, n2, dir, level, expanded, fewer, path);
        lemma_dir_children_with(n, inner);
        lemma_metadata_with_dir_children(n, inner);
        lemma_rows_below(n, q, level, expanded);
        lemma_rows_below(n2, q, level, fewer);
        let sub = lemma_removed_listing(cc, path, k + 1, level + 1, expanded, fewer);
        let row_q = row_of(level, q, n);
        let a = before + seq![row_q] + sub.0;
        let b = sub.1 + after;
        (a, b)
    } else {
        lemma_around_child(c, r, n, dir, level, expanded, fewer, path);
        (before, after)
    }
}

/// Taking the first run of rows at or below the row of a deleted entry off
/// the display gives the display that listing everything anew gives. Here
/// the display shows the directory `top` with the children `c`; `path`,
/// whose row is on display, is below `top`; `fewer` are the expanded
/// directories afterwards, with or without `path`.
pub proof fn lemma_deletion_in_step(
    c: Seq<(Seq<u8>, Node)>,
    top: Seq<Seq<u8>>,
    perm: Permissions,
    path: Seq<Seq<u8>>,
    expanded: Set<Seq<Seq<u8>>>,
    fewer: Set<Seq<Seq<u8>>>,
)
    requires
        children_wf(c),
        top.is_prefix_of(path),
        top.len() < path.len(),
        shown(c, path, top.len() as int, 1, expanded),
        same_but(expanded, fewer, path),
    ensures
        spliced(
            whole_display(c, top, perm, expanded),
            block_start(whole_display(c, top, perm, expanded), path),
            block_end(whole_display(c, top, perm, expanded), path),
            Seq::empty(),
        ) == whole_display(removed(c, path, top.len() as int), top, perm, fewer),
{
    let k = top.len() as int;
    let parts = lemma_removed_listing(c, path, k, 1, expanded, fewer);
    let gone = block(
        path.last(),
        node_at(c, path, k),
        path.drop_last(),
        level_of(path, k, 1),
        expanded,
    );
    lemma_node_at_wf(c, path, k, 1, expanded);
    lemma_block_shape(
        path.last(),
        node_at(c, path, k),
        path.drop_last(),
        level_of(path, k, 1),
        expanded,
    );
    let shown_rows = whole_display(c, top, perm, expanded);
    let at = 1 + parts.0.len() as int;
    let n = gone.len() as int;
    lemma_block(shown_rows, path);
    let start = block_start(shown_rows, path);
    let end = block_end(shown_rows, path);
    assert(start == at) by {
        if start > at {
            assert(!path.is_prefix_of(shown_rows[at].path));
        }
    }
    assert(end == at + n) by {
        if end > at + n {
            assert(path.is_prefix_of(shown_rows[at + n].path));
        }
    }
}

/// After an entry whose row is on display has been deleted, the display is
/// what listing everything anew would give. Here the display shows the
/// directory `top` as the cache `root` knows it; `path` is below `top`, and
/// the directory that holds it is cached; `fewer` are the expanded
/// directories afterwards, with or without `path`.
pub proof fn lemma_delete_in_step(
    root: Seq<(Seq<u8>, Node)>,
    top: Seq<Seq<u8>>,
    perm: Permissions,
    path: Seq<Seq<u8>>,
    probes: Seq<DirProbe>,
    expanded: Set<Seq<Seq<u8>>>,
    fewer: Set<Seq<Seq<u8>>>,
)
    requires
        children_wf(root),
        top.is_prefix_of(path),
        top.len() < path.len(),
        cached_at(root, path.drop_last(), 0),
        shown(dir_at(root, top, 0), path, top.len() as int, 1, expanded),
        same_but(expanded, fewer, path),
    ensures
        spliced(
            whole_display(dir_at(root, top, 0), top, perm, expanded),
            block_start(whole_display(dir_at(root, top, 0), top, perm, expanded), path),
            block_end(whole_display(dir_at(root, top, 0), top, perm, expanded), path),
            Seq::empty(),
        ) == whole_display(
            dir_at(forgotten(root, path.drop_last(), probes, path), top, 0),
            top,
            perm,
            fewer,
        ),
{
    let k = top.len() as int;
    let parent = path.drop_last();
    let c = dir_at(root, top, 0);
    assert(top =~= parent.subrange(0, k));
    lemma_opened_of_cached(root, parent, probes, 0);
    let left = without(dir_at(root, parent, 0), path.last());
    lemma_dir_at_along(root, parent, top, 0, left);
    lemma_cached_wf(root, top, 0);
    lemma_removed_is(c, path, k);
    lemma_deletion_in_step(c, top, perm, path, expanded, fewer);
}

/// Two paths that agree from `i` up to `d` compare from `i` on as they
/// compare from `d` on.
proof fn lemma_path_lt_skip(u: Seq<Seq<u8>>, v: Seq<Seq<u8>>, i: int, d: int)
    requires
        0 <= i <= d,
        d <= u.len(),
        d <= v.len(),
        forall|j: int| i <= j < d ==> u[j] == v[j],
    ensures
        path_lt_from(u, v, i) == path_lt_from(u, v, d),
    decreases d - i,
{
    if i < d {
        lemma_path_lt_skip(u, v, i + 1, d);
    }
}

/// A directory comes before everything strictly below it, and nothing at or
/// below a path comes before the path.
proof fn lemma_path_lt_prefix(p: Seq<Seq<u8>>, w: Seq<Seq<u8>>)
    requires
        p.is_prefix_of(w),
    ensures
        p.len() < w.len() ==> path_lt(p, w),
        !path_lt(w, p),
{
    lemma_path_lt_skip(p, w, 0, p.len() as int);
    lemma_path_lt_skip(w, p, 0, p.len() as int);
}

/// Where two paths differ first, the order of the names there is the order
/// of the paths.
proof fn lemma_path_lt_differ(u: Seq<Seq<u8>>, v: Seq<Seq<u8>>, d: int)
    requires
        0 <= d < u.len(),
        d < v.len(),
        forall|j: int| 0 <= j < d ==> u[j] == v[j],
        name_lt(u[d], v[d]),
    ensures
        path_lt(u, v),
        !path_lt(v, u),
{
    lemma_path_lt_skip(u, v, 0, d);
    lemma_path_lt_skip(v, u, 0, d);
    crate::path::lemma_name_lt_asymmetric(u[d], v[d]);
}

/// Every row comes before `path`.
pub open spec fn all_before(rows: Seq<Row>, path: Seq<Seq<u8>>) -> bool {
    forall|x: int| 0 <= x < rows.len() ==> path_lt((#[trigger] rows[x]).path, path)
}

/// No row comes before `path`.
pub open spec fn none_before(rows: Seq<Row>, path: Seq<Seq<u8>>) -> bool {
    forall|x: int| 0 <= x < rows.len() ==> !path_lt((#[trigger] rows[x]).path, path)
}

/// The rows of a child whose name comes before the next name on the way to
/// `path` come before `path`, and those of a child whose name comes after
/// it do not.
proof fn lemma_block_order(
    name: Seq<u8>,
    n: Node,
    dir: Seq<Seq<u8>>,
    level: nat,
    expanded: Set<Seq<Seq<u8>>>,
    path: Seq<Seq<u8>>,
)
    requires
        node_wf(n),
        dir.is_prefix_of(path),
        dir.len() < path.len(),
    ensures
        name_lt(name, path[dir.len() as int]) ==> all_before(
            block(name, n, dir, level, expanded),
            path,
        ),
        name_lt(path[dir.len() as int], name) ==> none_before(
            block(name, n, dir, level, expanded),
            path,
        ),
{
    let rows = block(name, n, dir, level, expanded);
    let d = dir.len() as int;
    lemma_block_shape(name, n, dir, level, expanded);
    assert forall|x: int| 0 <= x < rows.len() implies (name_lt(name, path[d]) ==> path_lt(
        (#[trigger] rows[x]).path,
        path,
    )) && (name_lt(path[d], name) ==> !path_lt(rows[x].path, path)) by {
        let w = rows[x].path;
        lemma_push_prefix(dir, name, w);
        assert forall|j: int| 0 <= j < d implies w[j] == path[j] by {}
        if name_lt(name, path[d]) {
            lemma_path_lt_differ(w, path, d);
        }
        if name_lt(path[d], name) {
            lemma_path_lt_differ(path, w, d);
        }
    }
}

proof fn lemma_siblings_before_less(
    c: Seq<(Seq<u8>, Node)>,
    j: int,
    r: int,
    dir: Seq<Seq<u8>>,
    level: nat,
    expanded: Set<Seq<Seq<u8>>>,
    path: Seq<Seq<u8>>,
)
    requires
        children_wf(c),
        0 <= j,
        r <= c.len(),
        dir.is_prefix_of(path),
        dir.len() < path.len(),
        forall|m: int| j <= m < r ==> name_lt((#[trigger] c[m]).0, path[dir.len() as int]),
    ensures
        all_before(rows_between(c, j, r, dir, level, expanded), path),
    decreases r - j,
{
    if j < r {
        lemma_block_order(c[j].0, c[j].1, dir, level, expanded, path);
        lemma_siblings_before_less(c, j + 1, r, dir, level, expanded, path);
    }
}

proof fn lemma_siblings_after_not_less(
    c: Seq<(Seq<u8>, Node)>,
    j: int,
    dir: Seq<Seq<u8>>,
    level: nat,
    expanded: Set<Seq<Seq<u8>>>,
    path: Seq<Seq<u8>>,
)
    requires
        children_wf(c),
        0 <= j,
        dir.is_prefix_of(path),
        dir.len() < path.len(),
        forall|m: int| j <= m < c.len() ==> name_lt(path[dir.len() as int], (#[trigger] c[m]).0),
    ensures
        none_before(rows_from(c, j, dir, level, expanded), path),
    decreases c.len() - j,
{
    if j < c.len() {
        lemma_block_order(c[j].0, c[j].1, dir, level, expanded, path);
        lemma_siblings_after_not_less(c, j + 1, dir, level, expanded, path);
    }
}

/// Whether the children of the directory that is to hold `path` are among
/// what the children `c` of the directory `path[..k]`, shown at `level`, put
/// on display: every directory on the way from there to that directory is
/// cached and expanded, and none of them is too deep for its children to be
/// listed.
pub open spec fn open_to(
    c: Seq<(Seq<u8>, Node)>,
    path: Seq<Seq<u8>>,
    k: int,
    level: nat,
    expanded: Set<Seq<Seq<u8>>>,
) -> bool
    decreases path.len() - k,
{
    &&& 0 <= k < path.len()
    &&& k + 1 < path.len() ==> {
        &&& lookup(c, path[k]) is Some
        &&& descends(path.subrange(0, k + 1), level, expanded)
        &&& dir_children(lookup(c, path[k])->0) is Some
        &&& open_to(dir_children(lookup(c, path[k])->0)->0, path, k + 1, level + 1, expanded)
    }
}

/// The children `c` of the directory `path[..k]` once the node `n` has been
/// put at `path`.
pub open spec fn added(c: Seq<(Seq<u8>, Node)>, path: Seq<Seq<u8>>, k: int, n: Node) -> Seq<
    (Seq<u8>, Node),
>
    decreases path.len() - k,
{
    if k + 1 < path.len() {
        put(
            c,
            path[k],
            with_dir_children(
                lookup(c, path[k])->0,
                added(dir_children(lookup(c, path[k])->0)->0, path, k + 1, n),
            ),
        )
    } else {
        put(c, path[k], n)
    }
}

/// Putting an entry into the cache is giving the directory that holds it
/// the children that it has and the entry.
pub proof fn lemma_added_is(c: Seq<(Seq<u8>, Node)>, path: Seq<Seq<u8>>, k: int, n: Node)
    requires
        0 <= k < path.len(),
    ensures
        added(c, path, k, n) == with_dir_at(
            c,
            path.drop_last(),
            k,
            put(dir_at(c, path.drop_last(), k), path.last(), n),
        ),
    decreases path.len() - k,
{
    if k + 1 < path.len() {
        lemma_added_is(dir_children(lookup(c, path[k])->0)->0, path, k + 1, n);
    }
}

/// Creating an entry in a directory whose children are on display changes
/// the rows that a listing gives in one place only: the row of the entry
/// comes in, after the rows that come before it in the order of paths and
/// before all others. Here `c` are the children of `path[..k]`, shown at
/// `level`, and `n`, which has no children, is the node put at `path`,
/// where nothing was cached. The lemma hands out the rows before and after
/// the row of the entry.
pub proof fn lemma_created_listing(
    c: Seq<(Seq<u8>, Node)>,
    path: Seq<Seq<u8>>,
    k: int,
    level: nat,
    expanded: Set<Seq<Seq<u8>>>,
    n: Node,
) -> (parts: (Seq<Row>, Seq<Row>))
    requires
        children_wf(c),
        open_to(c, path, k, level, expanded),
        lookup(dir_at(c, path.drop_last(), k), path.last()) is None,
        node_wf(n),
        dir_children(n) is Some ==> dir_children(n)->0.len() == 0,
    ensures
        rows_from(c, 0, path.subrange(0, k), level, expanded) == parts.0 + parts.1,
        rows_from(added(c, path, k, n), 0, path.subrange(0, k), level, expanded) == parts.0
            + seq![row_of(level_of(path, k, level), path, n)] + parts.1,
        all_before(parts.0, path),
        none_before(parts.1, path),
    decreases path.len() - k,
{
    let dir = path.subrange(0, k);
    let name = path[k];
    let q = path.subrange(0, k + 1);
    lemma_rank(c, name);
    let r = rank(c, name);
    assert(q =~= dir.push(name));
    lemma_siblings_before_less(c, 0, r, dir, level, expanded, path);
    let before = rows_between(c, 0, r, dir, level, expanded);
    lemma_rows_split(c, 0, r, dir, level, expanded);
    if k + 1 < path.len() {
        let node = lookup(c, name)->0;
        let cc = dir_children(node)->0;
        let inner = added(cc, path, k + 1, n);
        let n2 = with_dir_children(node, inner);
        lemma_siblings_after_not_less(c, r + 1, dir, level, expanded, path);
        lemma_around_child(c, r, n2, dir, level, expanded, expanded, path);
        lemma_dir_children_with(node, inner);
        lemma_metadata_with_dir_children(node, inner);
        lemma_rows_below(node, q, level, expanded);
        lemma_rows_below(n2, q, level, expanded);
        let sub = lemma_created_listing(cc, path, k + 1, level + 1, expanded, n);
        let after = rows_from(c, r + 1, dir, level, expanded);
        let row_q = row_of(level, q, node);
        let row_p = row_of(level_of(path, k, level), path, n);
        lemma_path_lt_prefix(q, path);
        let a = before + seq![row_q] + sub.0;
        let b = sub.1 + after;
        (a, b)
    } else {
        let c2 = c.insert(r, (name, n));
        assert forall|m: int| r <= m < c.len() implies name_lt(name, (#[trigger] c[m]).0) by {
            crate::path::lemma_name_lt_total(c[r].0, name);
            if m > r {
                crate::path::lemma_name_lt_transitive(name, c[r].0, c[m].0);
            }
        }
        lemma_siblings_after_not_less(c, r, dir, level, expanded, path);
        let after = rows_from(c, r, dir, level, expanded);
        lemma_rows_split(c2, 0, r, dir, level, expanded);
        lemma_rows_between_agree(c2, c, 0, r, dir, level, expanded);
        lemma_rows_from_shifted(c, c2, r, dir, level, expanded);
        lemma_rows_below(n, path, level, expanded);
        let row_p = row_of(level, path, n);
        assert(q =~= path);
        assert(block(name, n, dir, level, expanded) =~= seq![row_p]);
        (before, after)
    }
}

/// The place of a row that comes after all rows before an index and not
/// after the row at the index is that index.
proof fn lemma_first_not_before(rows: Seq<Row>, path: Seq<Seq<u8>>, at: int, i: int)
    requires
        0 <= i <= at <= rows.len(),
        forall|x: int| 0 <= x < at ==> path_lt((#[trigger] rows[x]).path, path),
        at < rows.len() ==> !path_lt(rows[at].path, path),
    ensures
        first_not_before(rows, path, i) == at,
    decreases at - i,
{
    if i < at {
        lemma_first_not_before(rows, path, at, i + 1);
    }
}

/// Showing the row of a new entry before the first row that does not come
/// before it gives the display that listing everything anew gives. Here the
/// display shows the directory `top` with the children `c`; the entry
/// `path` is new in a directory at or below `top` whose children are on
/// display; `n`, which has no children, is the node put at `path`.
pub proof fn lemma_creation_in_step(
    c: Seq<(Seq<u8>, Node)>,
    top: Seq<Seq<u8>>,
    perm: Permissions,
    path: Seq<Seq<u8>>,
    expanded: Set<Seq<Seq<u8>>>,
    n: Node,
)
    requires
        children_wf(c),
        top.is_prefix_of(path),
        top.len() < path.len(),
        open_to(c, path, top.len() as int, 1, expanded),
        lookup(dir_at(c, path.drop_last(), top.len() as int), path.last()) is None,
        node_wf(n),
        dir_children(n) is Some ==> dir_children(n)->0.len() == 0,
    ensures
        whole_display(c, top, perm, expanded).insert(
            first_not_before(whole_display(c, top, perm, expanded), path, 0),
            row_of((path.len() - top.len()) as nat, path, n),
        ) == whole_display(added(c, path, top.len() as int, n), top, perm, expanded),
{
    let k = top.len() as int;
    let parts = lemma_created_listing(c, path, k, 1, expanded, n);
    let shown_rows = whole_display(c, top, perm, expanded);
    let at = 1 + parts.0.len() as int;
    lemma_path_lt_prefix(top, path);
    lemma_first_not_before(shown_rows, path, at, 0);
}

/// Whether the directory that a display starts from counts as expanded
/// makes no difference to the display.
proof fn lemma_top_unaffected(
    c: Seq<(Seq<u8>, Node)>,
    top: Seq<Seq<u8>>,
    perm: Permissions,
    expanded: Set<Seq<Seq<u8>>>,
)
    ensures
        whole_display(c, top, perm, expanded.insert(top)) == whole_display(c, top, perm, expanded),
{
    lemma_siblings_unaffected(c, 0, top, 1, expanded, expanded.insert(top));
}

/// The way to the directory that holds `path` leads through expanded
/// directories only, the directory itself included unless it is the one
/// that the display starts from.
proof fn lemma_open_to_expanded(
    c: Seq<(Seq<u8>, Node)>,
    path: Seq<Seq<u8>>,
    k: int,
    level: nat,
    expanded: Set<Seq<Seq<u8>>>,
)
    requires
        open_to(c, path, k, level, expanded),
        k + 1 < path.len(),
    ensures
        expanded.contains(path.drop_last()),
    decreases path.len() - k,
{
    if k + 2 < path.len() {
        lemma_open_to_expanded(
            dir_children(lookup(c, path[k])->0)->0,
            path,
            k + 1,
            level + 1,
            expanded,
        );
    }
}

/// After a new entry has been created in a directory whose children are on
/// display, the display is what listing everything anew would give. Here
/// the display shows the directory `top` as the cache `root` knows it; the
/// entry `path` is new in a cached directory at or below `top`, which
/// counts as expanded from now on; `n`, which has no children, is the node
/// put at `path`.
pub proof fn lemma_create_in_step(
    root: Seq<(Seq<u8>, Node)>,
    top: Seq<Seq<u8>>,
    perm: Permissions,
    path: Seq<Seq<u8>>,
    probes: Seq<DirProbe>,
    expanded: Set<Seq<Seq<u8>>>,
    n: Node,
)
    requires
        children_wf(root),
        top.is_prefix_of(path),
        top.len() < path.len(),
        cached_at(root, path.drop_last(), 0),
        open_to(dir_at(root, top, 0), path, top.len() as int, 1, expanded),
        lookup(dir_at(root, path.drop_last(), 0), path.last()) is None,
        node_wf(n),
        dir_children(n) is Some ==> dir_children(n)->0.len() == 0,
    ensures
        whole_display(dir_at(root, top, 0), top, perm, expanded).insert(
            first_not_before(whole_display(dir_at(root, top, 0), top, perm, expanded), path, 0),
            row_of((path.len() - top.len()) as nat, path, n),
        ) == whole_display(
            dir_at(remembered(root, path.drop_last(), probes, path, n), top, 0),
            top,
            perm,
            expanded.insert(path.drop_last()),
        ),
{
    let k = top.len() as int;
    let parent = path.drop_last();
    let c = dir_at(root, top, 0);
    assert(top =~= parent.subrange(0, k));
    lemma_opened_of_cached(root, parent, probes, 0);
    let more = put(dir_at(root, parent, 0), path.last(), n);
    lemma_dir_at_along(root, parent, top, 0, more);
    lemma_cached_wf(root, top, 0);
    lemma_added_is(c, path, k, n);
    lemma_creation_in_step(c, top, perm, path, expanded, n);
    if k + 1 < path.len() {
        lemma_open_to_expanded(c, path, k, 1, expanded);
        assert(expanded.insert(parent) =~= expanded);
    } else {
        lemma_top_unaffected(added(c, path, k, n), top, perm, expanded);
    }
}

/// The rows strictly below the row of the directory `dir`, which is shown
/// at `level` and holds the children `c`.
pub open spec fn body(
    c: Seq<(Seq<u8>, Node)>,
    dir: Seq<Seq<u8>>,
    level: nat,
    expanded: Set<Seq<Seq<u8>>>,
) -> Seq<Row> {
    if descends(dir, level, expanded) {
        rows_from(c, 0, dir, level + 1, expanded)
    } else {
        Seq::empty()
    }
}

/// Whatever changes below a directory whose row is on display, in the cache
/// or among the expanded directories, changes the rows that a listing gives
/// in one place only: below the row of the directory. Here `c` are the
/// children of `anc[..k]`, shown at `level`, and `new` are the children that
/// the directory `anc` has afterwards. The lemma hands out the rows before
/// the row of the directory and the rows after the rows below it.
pub proof fn lemma_redrawn_listing(
    c: Seq<(Seq<u8>, Node)>,
    anc: Seq<Seq<u8>>,
    k: int,
    level: nat,
    one: Set<Seq<Seq<u8>>>,
    other: Set<Seq<Seq<u8>>>,
    new: Seq<(Seq<u8>, Node)>,
) -> (parts: (Seq<Row>, Seq<Row>))
    requires
        children_wf(c),
        shown(c, anc, k, level, one),
        dir_children(node_at(c, anc, k)) is Some,
        same_outside(one, other, anc),
    ensures
        rows_from(c, 0, anc.subrange(0, k), level, one) == parts.0 + seq![
            row_of(level_of(anc, k, level), anc, node_at(c, anc, k)),
        ] + body(dir_children(node_at(c, anc, k))->0, anc, level_of(anc, k, level), one) + parts.1,
        rows_from(with_dir_at(c, anc, k, new), 0, anc.subrange(0, k), level, other) == parts.0
            + seq![row_of(level_of(anc, k, level), anc, node_at(c, anc, k))] + body(
            new,
            anc,
            level_of(anc, k, level),
            other,
        ) + parts.1,
        none_below(parts.0, anc),
        none_below(parts.1, anc),
    decreases anc.len() - k,
{
    let dir = anc.subrange(0, k);
    let name = anc[k];
    let q = anc.subrange(0, k + 1);
    let r = rank(c, name);
    let n = lookup(c, name)->0;
    let inner = if k + 1 < anc.len() {
        with_dir_at(dir_children(n)->0, anc, k + 1, new)
    } else {
        new
    };
    let n2 = with_dir_children(n, inner);
    lemma_with_dir_at_step(c, anc, k, new);
    assert(q =~= dir.push(name));
    lemma_around_child(c, r, n2, dir, level, one, other, anc);
    let before = rows_between(c, 0, r, dir, level, one);
    let after = rows_from(c, r + 1, dir, level, one);
    let top_level = level_of(anc, k, level);
    let row_p = row_of(top_level, anc, node_at(c, anc, k));
    if k + 1 < anc.len() {
        let cc = dir_children(n)->0;
        lemma_dir_children_with(n, inner);
        lemma_metadata_with_dir_children(n, inner);
        lemma_rows_below(n, q, level, one);
        lemma_rows_below(n2, q, level, other);
        let sub = lemma_redrawn_listing(cc, anc, k + 1, level + 1, one, other, new);
        let old_body = body(dir_children(node_at(c, anc, k))->0, anc, top_level, one);
        let row_q = row_of(level, q, n);
        let a = before + seq![row_q] + sub.0;
        let b = sub.1 + after;
        assert(rows_from(c, 0, dir, level, one) =~= a + seq![row_p] + old_body + b);
        (a, b)
    } else {
        assert(q =~= anc);
        let cc = dir_children(n)->0;
        lemma_dir_children_with(n, new);
        lemma_metadata_with_dir_children(n, new);
        lemma_rows_below(n, anc, level, one);
        lemma_rows_below(n2, anc, level, other);
        assert(block(name, n, dir, level, one) =~= seq![row_p] + body(cc, anc, level, one));
        assert(rows_from(with_dir_at(c, anc, k, new), 0, dir, level, other) =~= before + seq![
            row_p,
        ] + body(new, anc, level, other) + after);
        (before, after)
    }
}

/// Showing, in place of the rows strictly below the row of a directory, the
/// rows that the directory puts on display now gives the display that
/// listing everything anew gives, whatever has changed below the directory
/// in the cache and among the expanded directories. Here the display shows
/// the directory `top` with the children `c`; the row of the directory
/// `anc` below `top` is on display; `new` are the children that `anc` has
/// afterwards, and `other` are the expanded directories afterwards.
pub proof fn lemma_redraw_in_step(
    c: Seq<(Seq<u8>, Node)>,
    top: Seq<Seq<u8>>,
    perm: Permissions,
    anc: Seq<Seq<u8>>,
    one: Set<Seq<Seq<u8>>>,
    other: Set<Seq<Seq<u8>>>,
    new: Seq<(Seq<u8>, Node)>,
)
    requires
        children_wf(c),
        top.is_prefix_of(anc),
        top.len() < anc.len(),
        shown(c, anc, top.len() as int, 1, one),
        dir_children(node_at(c, anc, top.len() as int)) is Some,
        same_outside(one, other, anc),
    ensures
        spliced(
            whole_display(c, top, perm, one),
            body_start(whole_display(c, top, perm, one), anc),
            block_end(whole_display(c, top, perm, one), anc),
            body(new, anc, (anc.len() - top.len()) as nat, other),
        ) == whole_display(with_dir_at(c, anc, top.len() as int, new), top, perm, other),
        0 <= block_start(whole_display(c, top, perm, one), anc) < whole_display(
            c,
            top,
            perm,
            one,
        ).len(),
        whole_display(c, top, perm, one)[block_start(whole_display(c, top, perm, one), anc)]
            == row_of(
            (anc.len() - top.len()) as nat,
            anc,
            node_at(c, anc, top.len() as int),
        ),
        body_start(whole_display(c, top, perm, one), anc) == block_start(
            whole_display(c, top, perm, one),
            anc,
        ) + 1,
        block_end(whole_display(c, top, perm, one), anc) == body_start(
            whole_display(c, top, perm, one),
            anc,
        ) + body(
            dir_children(node_at(c, anc, top.len() as int))->0,
            anc,
            (anc.len() - top.len()) as nat,
            one,
        ).len(),
{
    let k = top.len() as int;
    let parts = lemma_redrawn_listing(c, anc, k, 1, one, other, new);
    let level = level_of(anc, k, 1);
    let held = dir_children(node_at(c, anc, k))->0;
    let old_body = body(held, anc, level, one);
    lemma_node_at_wf(c, anc, k, 1, one);
    lemma_dir_children_with(node_at(c, anc, k), held);
    lemma_flattened_contiguous(held, anc, level, one);
    let shown_rows = whole_display(c, top, perm, one);
    let at = 1 + parts.0.len() as int;
    let n = old_body.len() as int;
    lemma_block(shown_rows, anc);
    let start = block_start(shown_rows, anc);
    let end = block_end(shown_rows, anc);
    assert(start == at) by {
        if start > at {
            assert(!anc.is_prefix_of(shown_rows[at].path));
        }
    }
    assert(end == at + 1 + n) by {
        if end > at + 1 + n {
            assert(anc.is_prefix_of(shown_rows[at + 1 + n].path));
        }
    }
}

/// Showing, in place of the rows below the row of the directory that the
/// display starts from, the rows that the directory puts on display now
/// gives the display that listing everything anew gives.
pub proof fn lemma_redraw_at_top(
    c: Seq<(Seq<u8>, Node)>,
    top: Seq<Seq<u8>>,
    perm: Permissions,
    one: Set<Seq<Seq<u8>>>,
    other: Set<Seq<Seq<u8>>>,
    new: Seq<(Seq<u8>, Node)>,
)
    requires
        children_wf(c),
    ensures
        spliced(
            whole_display(c, top, perm, one),
            body_start(whole_display(c, top, perm, one), top),
            block_end(whole_display(c, top, perm, one), top),
            flattened(new, top, 0, other),
        ) == whole_display(new, top, perm, other),
{
    let shown_rows = whole_display(c, top, perm, one);
    lemma_flattened_contiguous(c, top, 0, one);
    lemma_block(shown_rows, top);
}

/// A rename within a directory changes the expanded directories at or
/// below that directory only, and leaves the directory itself expanded.
pub proof fn lemma_expanded_after_outside(
    expanded: Set<Seq<Seq<u8>>>,
    old_path: Seq<Seq<u8>>,
    new_path: Seq<Seq<u8>>,
    anc: Seq<Seq<u8>>,
)
    requires
        anc.is_prefix_of(old_path),
        anc.is_prefix_of(new_path),
        anc.len() < new_path.len(),
    ensures
        same_outside(expanded, expanded_after(expanded, old_path, new_path, Some(anc)), anc),
        expanded_after(expanded, old_path, new_path, Some(anc)).contains(anc),
{
}

/// After a rename within a directory whose row is on display, the display,
/// in which the rows below that row have been made anew, is what listing
/// everything anew would give. Here the display shows the directory `top`
/// as the cache `root` knows it; `anc` is `top` or a cached directory below
/// it, not too deep for its children to be listed, and at or above the
/// directories that hold the old and the new path; `file` is the node that
/// is moved.
pub proof fn lemma_rename_in_step(
    root: Seq<(Seq<u8>, Node)>,
    top: Seq<Seq<u8>>,
    perm: Permissions,
    anc: Seq<Seq<u8>>,
    old_path: Seq<Seq<u8>>,
    new_path: Seq<Seq<u8>>,
    src_probes: Seq<DirProbe>,
    dst_probes: Seq<DirProbe>,
    file: Node,
    expanded: Set<Seq<Seq<u8>>>,
)
    requires
        children_wf(root),
        top.is_prefix_of(anc),
        anc.len() - top.len() < MAX_LEVEL,
        cached_at(root, anc, 0),
        old_path.len() > 0,
        new_path.len() > 0,
        anc.is_prefix_of(old_path.drop_last()),
        anc.is_prefix_of(new_path.drop_last()),
        top.len() < anc.len() ==> shown(dir_at(root, top, 0), anc, top.len() as int, 1, expanded),
    ensures
        spliced(
            whole_display(dir_at(root, top, 0), top, perm, expanded),
            body_start(whole_display(dir_at(root, top, 0), top, perm, expanded), anc),
            block_end(whole_display(dir_at(root, top, 0), top, perm, expanded), anc),
            listing_of(
                settled_in(lifted(root, src_probes, old_path), dst_probes, new_path, file),
                anc,
                (anc.len() - top.len()) as nat,
                expanded_after(expanded, old_path, new_path, Some(anc)),
            ),
        ) == whole_display(
            dir_at(
                settled_in(lifted(root, src_probes, old_path), dst_probes, new_path, file),
                top,
                0,
            ),
            top,
            perm,
            expanded_after(expanded, old_path, new_path, Some(anc)),
        ),
{
    let k = top.len() as int;
    let old_parent = old_path.drop_last();
    let new_parent = new_path.drop_last();
    let after = expanded_after(expanded, old_path, new_path, Some(anc));
    let c = dir_at(root, top, 0);
    // the cache changes below the directory only
    let o1 = opened(root, old_parent, src_probes, 0);
    let w1 = without(dir_at(o1, old_parent, 0), old_path.last());
    let r1 = lifted(root, src_probes, old_path);
    lemma_change_below(root, anc, old_parent, src_probes, w1);
    let o2 = opened(r1, new_parent, dst_probes, 0);
    let w2 = put(dir_at(o2, new_parent, 0), new_path.last(), file);
    let last = settled_in(r1, dst_probes, new_path, file);
    lemma_change_below(r1, anc, new_parent, dst_probes, w2);
    let held = dir_at(last, anc, 0);
    lemma_with_dir_at_twice(root, anc, 0, dir_at(r1, anc, 0), held);
    lemma_dir_at_along(root, anc, top, 0, held);
    lemma_cached_wf(root, top, 0);
    if top.len() == anc.len() {
        lemma_redraw_at_top(c, top, perm, expanded, after, held);
    } else {
        lemma_node_at_cached(c, anc, k);
        // so do the expanded directories
        lemma_redraw_in_step(c, top, perm, anc, expanded, after, held);
    }
}

} // verus!
