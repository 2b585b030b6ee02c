//! The block structure of the display: the rows at or below the path of a
//! row form one run that starts at that row. A listing has this structure,
//! the edits of the commands keep it, and it is what makes the run of rows
//! that a command finds for a directory the right one.

use crate::actions::listing::block;
use crate::actions::listing::block_end;
use crate::actions::listing::block_start;
use crate::actions::listing::body_start;
use crate::actions::listing::descends;
use crate::actions::listing::first_in;
use crate::actions::listing::first_out;
use crate::actions::listing::flattened;
use crate::actions::listing::rows_below;
use crate::actions::listing::rows_from;
use crate::actions::listing::whole_display;
use crate::actions::renderer::Row;
use crate::actions::renderer::spliced;
use crate::fs::Permissions;
use crate::fs::model::Node;
use crate::fs::model::children_wf;
use crate::fs::model::node_wf;
use crate::path::lemma_name_lt_irreflexive;
use crate::path::name_lt;
use vstd::prelude::*;

verus! {

/// The path `p` lies strictly below `base`.
pub open spec fn below(base: Seq<Seq<u8>>, p: Seq<Seq<u8>>) -> bool {
    base.is_prefix_of(p) && p.len() > base.len()
}

/// Every row lies strictly below `base`.
pub open spec fn all_below(rows: Seq<Row>, base: Seq<Seq<u8>>) -> bool {
    forall|r: int| 0 <= r < rows.len() ==> below(base, (#[trigger] rows[r]).path)
}

/// The rows come in blocks: the rows at or below the path of any row form one
/// run of rows, and that run starts at the row itself.
pub open spec fn contiguous(rows: Seq<Row>) -> bool {
    forall|i: int, j: int, m: int|
        #![trigger rows[i], rows[j], rows[m]]
        0 <= i < rows.len() && 0 <= j < rows.len() && rows[i].path.is_prefix_of(rows[j].path)
            ==> i <= j && (i <= m <= j ==> rows[i].path.is_prefix_of(rows[m].path))
}

/// Every row of `rows`, all of them strictly below `dir`, continues `dir`
/// with a name that comes after the first `i` names of `c`.
spec fn heads_after(rows: Seq<Row>, dir: Seq<Seq<u8>>, c: Seq<(Seq<u8>, Node)>, i: int) -> bool {
    forall|r: int, k: int|
        0 <= r < rows.len() && 0 <= k < i ==> name_lt(
            (#[trigger] c[k]).0,
            (#[trigger] rows[r]).path[dir.len() as int],
        )
}

proof fn lemma_rows_from_shape(
    c: Seq<(Seq<u8>, Node)>,
    i: int,
    dir: Seq<Seq<u8>>,
    level: nat,
    expanded: Set<Seq<Seq<u8>>>,
)
    requires
        children_wf(c),
        0 <= i <= c.len(),
    ensures
        all_below(rows_from(c, i, dir, level, expanded), dir),
        heads_after(rows_from(c, i, dir, level, expanded), dir, c, i),
        contiguous(rows_from(c, i, dir, level, expanded)),
    decreases c, c.len() - i,
{
    if i < c.len() {
        let name = c[i].0;
        let p = dir.push(name);
        let d = dir.len() as int;
        let rest = rows_from(c, i + 1, dir, level, expanded);
        lemma_block_shape(name, c[i].1, dir, level, expanded);
        lemma_rows_from_shape(c, i + 1, dir, level, expanded);
        assert(p[d] == name);
        assert forall|y: int| 0 <= y < rest.len() implies (#[trigger] rest[y]).path[d] != name by {
            lemma_name_lt_irreflexive(name);
        }
    }
}

/// The rows of one child of a directory start with the child's own row, are
/// all at or below the child's path, and come in blocks.
pub proof fn lemma_block_shape(
    name: Seq<u8>,
    n: Node,
    dir: Seq<Seq<u8>>,
    level: nat,
    expanded: Set<Seq<Seq<u8>>>,
)
    requires
        node_wf(n),
    ensures
        block(name, n, dir, level, expanded).len() >= 1,
        block(name, n, dir, level, expanded)[0].path == dir.push(name),
        forall|r: int|
            0 <= r < block(name, n, dir, level, expanded).len() ==> dir.push(name).is_prefix_of(
                (#[trigger] block(name, n, dir, level, expanded)[r]).path,
            ),
        contiguous(block(name, n, dir, level, expanded)),
    decreases n, 1nat,
{
    let p = dir.push(name);
    if descends(p, level, expanded) {
        lemma_rows_below_shape(n, p, level, expanded);
    }
}

proof fn lemma_rows_below_shape(
    n: Node,
    path: Seq<Seq<u8>>,
    level: nat,
    expanded: Set<Seq<Seq<u8>>>,
)
    requires
        node_wf(n),
    ensures
        all_below(rows_below(n, path, level, expanded), path),
        contiguous(rows_below(n, path, level, expanded)),
    decreases n, 0nat,
{
    match n {
        Node::Directory { children, .. } => {
            lemma_rows_from_shape(children, 0, path, level + 1, expanded);
        },
        Node::Link { target } => {
            lemma_rows_below_shape(*target, path, level, expanded);
        },
        _ => {},
    }
}

/// Whatever is expanded, the rows that a directory puts on display come in
/// blocks: for every row, the rows at or below its path are that row and the
/// rows that follow it without a gap, and no other row.
pub proof fn lemma_flattened_contiguous(
    c: Seq<(Seq<u8>, Node)>,
    dir: Seq<Seq<u8>>,
    level: nat,
    expanded: Set<Seq<Seq<u8>>>,
)
    requires
        children_wf(c),
    ensures
        contiguous(flattened(c, dir, level, expanded)),
        all_below(flattened(c, dir, level, expanded), dir),
{
    lemma_rows_from_shape(c, 0, dir, level + 1, expanded);
}

/// The whole display of a directory comes in blocks too: its own row, at or
/// above every other row, comes first.
pub proof fn lemma_whole_display_contiguous(
    c: Seq<(Seq<u8>, Node)>,
    dir: Seq<Seq<u8>>,
    perm: Permissions,
    expanded: Set<Seq<Seq<u8>>>,
)
    requires
        children_wf(c),
    ensures
        contiguous(whole_display(c, dir, perm, expanded)),
{
    lemma_flattened_contiguous(c, dir, 0, expanded);
}

/// Rows that come in blocks still do so after a run of them has been taken
/// off the display.
pub proof fn lemma_removal_keeps_contiguous(rows: Seq<Row>, start: int, end: int)
    requires
        contiguous(rows),
        0 <= start <= end <= rows.len(),
    ensures
        contiguous(spliced(rows, start, end, Seq::empty())),
{
}

/// Rows that come in blocks still do so after a collapsed directory has
/// been expanded: if no other row was at or below the row `i`, and the rows
/// `listing`, which come in blocks themselves, are all strictly below it,
/// then the rows with `listing` right after the row `i` come in blocks.
pub proof fn lemma_expansion_keeps_contiguous(rows: Seq<Row>, i: int, listing: Seq<Row>)
    requires
        contiguous(rows),
        contiguous(listing),
        0 <= i < rows.len(),
        all_below(listing, rows[i].path),
        forall|j: int|
            0 <= j < rows.len() && j != i ==> !rows[i].path.is_prefix_of((#[trigger] rows[j]).path),
    ensures
        contiguous(spliced(rows, i + 1, i + 1, listing)),
{
}

/// What the two ends of the first run of rows at or below a path are: no row
/// before the start is at or below the path, every row from the start to the
/// end is, and the row at the end, if there is one, is not.
pub proof fn lemma_block(rows: Seq<Row>, prefix: Seq<Seq<u8>>)
    ensures
        0 <= block_start(rows, prefix) <= block_end(rows, prefix) <= rows.len(),
        forall|k: int|
            0 <= k < block_start(rows, prefix) ==> !prefix.is_prefix_of((#[trigger] rows[k]).path),
        forall|k: int|
            block_start(rows, prefix) <= k < block_end(rows, prefix) ==> prefix.is_prefix_of(
                (#[trigger] rows[k]).path,
            ),
        block_end(rows, prefix) < rows.len() ==> !prefix.is_prefix_of(
            rows[block_end(rows, prefix)].path,
        ),
        block_start(rows, prefix) < rows.len() ==> block_start(rows, prefix) < block_end(
            rows,
            prefix,
        ),
{
    lemma_first_in(rows, prefix, 0);
    lemma_first_out(rows, prefix, block_start(rows, prefix));
}

proof fn lemma_first_in(rows: Seq<Row>, prefix: Seq<Seq<u8>>, i: int)
    requires
        0 <= i <= rows.len(),
    ensures
        i <= first_in(rows, prefix, i) <= rows.len(),
        forall|k: int|
            i <= k < first_in(rows, prefix, i) ==> !prefix.is_prefix_of((#[trigger] rows[k]).path),
        first_in(rows, prefix, i) < rows.len() ==> prefix.is_prefix_of(
            rows[first_in(rows, prefix, i)].path,
        ),
    decreases rows.len() - i,
{
    if i < rows.len() && !prefix.is_prefix_of(rows[i].path) {
        lemma_first_in(rows, prefix, i + 1);
    }
}

proof fn lemma_first_out(rows: Seq<Row>, prefix: Seq<Seq<u8>>, i: int)
    requires
        0 <= i <= rows.len(),
    ensures
        i <= first_out(rows, prefix, i) <= rows.len(),
        forall|k: int|
            i <= k < first_out(rows, prefix, i) ==> prefix.is_prefix_of((#[trigger] rows[k]).path),
        first_out(rows, prefix, i) < rows.len() ==> !prefix.is_prefix_of(
            rows[first_out(rows, prefix, i)].path,
        ),
    decreases rows.len() - i,
{
    if i < rows.len() && prefix.is_prefix_of(rows[i].path) {
        lemma_first_out(rows, prefix, i + 1);
    }
}

/// Where the rows come in blocks and a row stands for the path itself, the
/// first run of rows at or below the path starts at that row and holds
/// every row at or below the path.
pub proof fn lemma_block_is_all(rows: Seq<Row>, i: int)
    requires
        contiguous(rows),
        0 <= i < rows.len(),
    ensures
        block_start(rows, rows[i].path) == i,
        i < block_end(rows, rows[i].path) <= rows.len(),
        forall|j: int|
            0 <= j < rows.len() ==> (rows[i].path.is_prefix_of((#[trigger] rows[j]).path) <==> i
                <= j < block_end(rows, rows[i].path)),
{
    let p = rows[i].path;
    lemma_block(rows, p);
    let s = block_start(rows, p);
    if s < i {
        // the row at the start is at or below the row `i`, so it cannot
        // come before it
    }
}

/// Where the rows come in blocks, taking the first run of rows at or below
/// the path of a row off the display leaves no row at or below that path.
pub proof fn lemma_removed_block_is_gone(rows: Seq<Row>, i: int)
    requires
        contiguous(rows),
        0 <= i < rows.len(),
    ensures
        forall|j: int|
            0 <= j < spliced(
                rows,
                block_start(rows, rows[i].path),
                block_end(rows, rows[i].path),
                Seq::empty(),
            ).len() ==> !rows[i].path.is_prefix_of(
                (#[trigger] spliced(
                    rows,
                    block_start(rows, rows[i].path),
                    block_end(rows, rows[i].path),
                    Seq::empty(),
                )[j]).path,
            ),
{
    lemma_block_is_all(rows, i);
}

/// Where the rows come in blocks, taking the rows strictly below a row off
/// the display leaves that row as the only one at or below its path.
pub proof fn lemma_collapsed_block_is_one_row(rows: Seq<Row>, i: int)
    requires
        contiguous(rows),
        0 <= i < rows.len(),
    ensures
        body_start(rows, rows[i].path) == i + 1,
        spliced(
            rows,
            body_start(rows, rows[i].path),
            block_end(rows, rows[i].path),
            Seq::empty(),
        )[i] == rows[i],
        forall|j: int|
            0 <= j < spliced(
                rows,
                body_start(rows, rows[i].path),
                block_end(rows, rows[i].path),
                Seq::empty(),
            ).len() && j != i ==> !rows[i].path.is_prefix_of(
                (#[trigger] spliced(
                    rows,
                    body_start(rows, rows[i].path),
                    block_end(rows, rows[i].path),
                    Seq::empty(),
                )[j]).path,
            ),
{
    lemma_block_is_all(rows, i);
}

/// Expanding a collapsed directory and collapsing it again restores the
/// rows: if the rows come in blocks, no other row is at or below the row
/// `i`, and the rows `listing`, which come in blocks themselves, are all
/// strictly below it, then the rows strictly below the row `i`, once
/// `listing` has been put right after it, are just `listing`.
pub proof fn lemma_expand_then_collapse(rows: Seq<Row>, i: int, listing: Seq<Row>)
    requires
        contiguous(rows),
        contiguous(listing),
        0 <= i < rows.len(),
        all_below(listing, rows[i].path),
        forall|j: int|
            0 <= j < rows.len() && j != i ==> !rows[i].path.is_prefix_of((#[trigger] rows[j]).path),
    ensures
        body_start(
            spliced(rows, i + 1, i + 1, listing),
            rows[i].path,
        ) == i + 1,
        block_end(
            spliced(rows, i + 1, i + 1, listing),
            rows[i].path,
        ) == i + 1 + listing.len(),
        spliced(
            spliced(rows, i + 1, i + 1, listing),
            i + 1,
            i + 1 + listing.len(),
            Seq::empty(),
        ) == rows,
{
    let n = listing.len() as int;
    let more = spliced(rows, i + 1, i + 1, listing);
    lemma_block_is_all(more, i);
    if n > 0 {
        assert(more[i + n] == listing[n - 1]);
    }
    if i + n + 1 < more.len() {
        assert(more[i + n + 1] == rows[i + 1]);
    }
}

} // verus!
