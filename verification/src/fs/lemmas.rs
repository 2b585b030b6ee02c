//! What holds of the cache as a mathematical value: the children of a
//! directory behave like a map from names to nodes, the order of the names
//! survives every operation, and a directory that has been opened is there.

use crate::fs::DirProbe;
use crate::fs::model::Node;
use crate::fs::model::cached_at;
use crate::fs::model::children_wf;
use crate::fs::model::dir_at;
use crate::fs::model::dir_children;
use crate::fs::model::ensured;
use crate::fs::model::fresh_dir;
use crate::fs::model::holds;
use crate::fs::model::lookup;
use crate::fs::model::merged;
use crate::fs::model::merged_end;
use crate::fs::model::node_wf;
use crate::fs::model::opened;
use crate::fs::model::put;
use crate::fs::model::rank;
use crate::fs::model::rank_from;
use crate::fs::model::reconciled;
use crate::fs::model::resolvable;
use crate::fs::model::resolved;
use crate::fs::model::sorted;
use crate::fs::model::with_dir_at;
use crate::fs::model::with_dir_children;
use crate::fs::model::with_resolved;
use crate::fs::model::without;
use crate::path::lemma_name_lt_asymmetric;
use crate::path::lemma_name_lt_irreflexive;
use crate::path::lemma_name_lt_total;
use crate::path::lemma_name_lt_transitive;
use crate::path::name_lt;
use vstd::prelude::*;

verus! {

/// What `rank` is: everything before it is before `name`, and what stands at
/// it is not.
pub proof fn lemma_rank(c: Seq<(Seq<u8>, Node)>, name: Seq<u8>)
    ensures
        0 <= rank(c, name) <= c.len(),
        forall|k: int| 0 <= k < rank(c, name) ==> name_lt(#[trigger] c[k].0, name),
        rank(c, name) < c.len() ==> !name_lt(c[rank(c, name)].0, name),
{
    lemma_rank_from(c, name, 0);
}

proof fn lemma_rank_from(c: Seq<(Seq<u8>, Node)>, name: Seq<u8>, i: int)
    requires
        0 <= i <= c.len(),
    ensures
        i <= rank_from(c, name, i) <= c.len(),
        forall|k: int| i <= k < rank_from(c, name, i) ==> name_lt(#[trigger] c[k].0, name),
        rank_from(c, name, i) < c.len() ==> !name_lt(c[rank_from(c, name, i)].0, name),
    decreases c.len() - i,
{
    if i < c.len() && name_lt(c[i].0, name) {
        lemma_rank_from(c, name, i + 1);
    }
}

/// An index that behaves as `rank` is described is the rank.
pub proof fn lemma_rank_is(c: Seq<(Seq<u8>, Node)>, name: Seq<u8>, r: int)
    requires
        0 <= r <= c.len(),
        forall|k: int| 0 <= k < r ==> name_lt(#[trigger] c[k].0, name),
        r < c.len() ==> !name_lt(c[r].0, name),
    ensures
        rank(c, name) == r,
{
    lemma_rank_is_from(c, name, r, 0);
}

proof fn lemma_rank_is_from(c: Seq<(Seq<u8>, Node)>, name: Seq<u8>, r: int, i: int)
    requires
        0 <= i <= r <= c.len(),
        forall|k: int| 0 <= k < r ==> name_lt(#[trigger] c[k].0, name),
        r < c.len() ==> !name_lt(c[r].0, name),
    ensures
        rank_from(c, name, i) == r,
    decreases r - i,
{
    if i < r {
        lemma_rank_is_from(c, name, r, i + 1);
    }
}

/// In sorted children a name stands at its rank or nowhere.
pub proof fn lemma_sorted_has(c: Seq<(Seq<u8>, Node)>, name: Seq<u8>, k: int)
    requires
        sorted(c),
        0 <= k < c.len(),
        c[k].0 == name,
    ensures
        rank(c, name) == k,
        holds(c, name),
{
    lemma_name_lt_irreflexive(name);
    lemma_rank_is(c, name, k);
}

/// Putting a child keeps the order of the names.
pub proof fn lemma_put_sorted(c: Seq<(Seq<u8>, Node)>, name: Seq<u8>, n: Node)
    requires
        sorted(c),
    ensures
        sorted(put(c, name, n)),
{
    lemma_rank(c, name);
    let r = rank(c, name);
    let p = put(c, name, n);
    if !holds(c, name) {
        assert forall|i: int, j: int| 0 <= i < j < p.len() implies name_lt(
            #[trigger] p[i].0,
            #[trigger] p[j].0,
        ) by {
            if j > r {
                lemma_name_lt_total(c[r].0, name);
                if j - 1 > r {
                    lemma_name_lt_transitive(name, c[r].0, c[j - 1].0);
                }
            }
        }
    }
}

/// Putting a well-formed child among well-formed children leaves them
/// well-formed.
pub proof fn lemma_put_wf(c: Seq<(Seq<u8>, Node)>, name: Seq<u8>, n: Node)
    requires
        children_wf(c),
        node_wf(n),
    ensures
        children_wf(put(c, name, n)),
{
    lemma_put_sorted(c, name, n);
    lemma_rank(c, name);
}

/// Taking a child away leaves well-formed children well-formed.
pub proof fn lemma_without_wf(c: Seq<(Seq<u8>, Node)>, name: Seq<u8>)
    requires
        children_wf(c),
    ensures
        children_wf(without(c, name)),
{
    lemma_rank(c, name);
}

/// After a put the name is found where it was put, with what was put.
pub proof fn lemma_put_rank(c: Seq<(Seq<u8>, Node)>, name: Seq<u8>, n: Node)
    ensures
        rank(put(c, name, n), name) == rank(c, name),
        holds(put(c, name, n), name),
        lookup(put(c, name, n), name) == Some(n),
{
    lemma_rank(c, name);
    let r = rank(c, name);
    let p = put(c, name, n);
    lemma_name_lt_irreflexive(name);
    lemma_rank_is(p, name, r);
}

/// A second put under the same name overrides the first.
pub proof fn lemma_put_put(c: Seq<(Seq<u8>, Node)>, name: Seq<u8>, a: Node, b: Node)
    ensures
        put(put(c, name, a), name, b) == put(c, name, b),
{
    lemma_rank(c, name);
    lemma_put_rank(c, name, a);
}

/// After a put every other name is found as before.
pub proof fn lemma_put_other(c: Seq<(Seq<u8>, Node)>, name: Seq<u8>, n: Node, other: Seq<u8>)
    requires
        sorted(c),
        other != name,
    ensures
        lookup(put(c, name, n), other) == lookup(c, other),
{
    lemma_rank(c, name);
    lemma_rank(c, other);
    let r = rank(c, name);
    let q = rank(c, other);
    let p = put(c, name, n);
    lemma_rank(p, other);
    if holds(c, name) {
        if q < c.len() {
            assert(p[q].0 == c[q].0);
        }
    } else {
        lemma_name_lt_total(name, other);
        if name_lt(other, name) {
            // `other` stands, if anywhere, before the new child
            if q > r {
                lemma_name_lt_transitive(c[r].0, other, name);
            }
            if q < r {
                assert(p[q] == c[q]);
            }
        } else {
            if q < r {
                lemma_name_lt_transitive(c[q].0, name, other);
            }
            if q + 1 < p.len() {
                assert(p[q + 1] == c[q]);
            }
        }
    }
}

/// Replacing the end of a chain of links, and then looking at the end.
pub proof fn lemma_resolved_with_resolved(n: Node, r: Node)
    requires
        !(r is Link),
    ensures
        resolved(with_resolved(n, r)) == r,
    decreases n,
{
    match n {
        Node::Link { target } => lemma_resolved_with_resolved(*target, r),
        _ => {},
    }
}

/// Replacing the end of a chain of links twice is replacing it once.
pub proof fn lemma_with_resolved_twice(n: Node, a: Node, b: Node)
    requires
        !(a is Link),
    ensures
        with_resolved(with_resolved(n, a), b) == with_resolved(n, b),
    decreases n,
{
    match n {
        Node::Link { target } => lemma_with_resolved_twice(*target, a, b),
        _ => {},
    }
}

/// Replacing the end of a chain of links by itself changes nothing.
pub proof fn lemma_with_resolved_same(n: Node)
    ensures
        with_resolved(n, resolved(n)) == n,
    decreases n,
{
    match n {
        Node::Link { target } => lemma_with_resolved_same(*target),
        _ => {},
    }
}

/// A node is well-formed exactly when the end of its chain of links is.
pub proof fn lemma_with_resolved_wf(n: Node, r: Node)
    ensures
        node_wf(with_resolved(n, r)) == node_wf(r),
        node_wf(n) == node_wf(resolved(n)),
    decreases n,
{
    match n {
        Node::Link { target } => lemma_with_resolved_wf(*target, r),
        _ => {},
    }
}

/// The children of a directory are what was last put there.
pub proof fn lemma_dir_children_with(n: Node, c: Seq<(Seq<u8>, Node)>)
    requires
        dir_children(n) is Some,
    ensures
        dir_children(with_dir_children(n, c)) == Some(c),
        forall|d: Seq<(Seq<u8>, Node)>| #[trigger]
            with_dir_children(with_dir_children(n, c), d) == with_dir_children(n, d),
        with_dir_children(n, dir_children(n)->0) == n,
        children_wf(c) ==> node_wf(with_dir_children(n, c)),
        node_wf(n) ==> children_wf(dir_children(n)->0),
{
    let perm = resolved(n)->Directory_perm;
    let a = Node::Directory { perm, children: c };
    lemma_resolved_with_resolved(n, a);
    assert forall|d: Seq<(Seq<u8>, Node)>| #[trigger]
        with_dir_children(with_dir_children(n, c), d) == with_dir_children(n, d) by {
        lemma_with_resolved_twice(n, a, Node::Directory { perm, children: d });
    }
    lemma_with_resolved_same(n);
    lemma_with_resolved_wf(n, a);
}

/// After taking a child away every other name is found as before.
pub proof fn lemma_without_other(c: Seq<(Seq<u8>, Node)>, name: Seq<u8>, other: Seq<u8>)
    requires
        sorted(c),
        other != name,
    ensures
        lookup(without(c, name), other) == lookup(c, other),
{
    lemma_rank(c, name);
    lemma_rank(c, other);
    let r = rank(c, name);
    let q = rank(c, other);
    let w = without(c, name);
    if holds(c, name) {
        lemma_name_lt_total(name, other);
        if name_lt(other, name) {
            if q > r {
                lemma_name_lt_asymmetric(other, name);
            }
            if r <= q && q < w.len() {
                lemma_name_lt_transitive(other, name, c[r + 1].0);
                lemma_name_lt_asymmetric(other, c[r + 1].0);
            }
            lemma_rank_is(w, other, q);
        } else {
            if q < r {
                lemma_name_lt_transitive(c[q].0, name, other);
            }
            lemma_rank_is(w, other, q - 1);
        }
    }
}

/// After taking a child away its name is no longer found.
pub proof fn lemma_without_gone(c: Seq<(Seq<u8>, Node)>, name: Seq<u8>)
    requires
        sorted(c),
    ensures
        !holds(without(c, name), name),
{
    lemma_rank(c, name);
    let r = rank(c, name);
    let w = without(c, name);
    if holds(c, name) {
        if r < w.len() {
            lemma_name_lt_asymmetric(name, c[r + 1].0);
        }
        lemma_rank_is(w, name, r);
    }
}

/// Merging well-formed nodes gives a well-formed node.
pub proof fn lemma_merged_wf(old: Node, new: Node)
    requires
        node_wf(old),
        node_wf(new),
    ensures
        node_wf(merged(old, new)),
{
    match (old, new) {
        (Node::Link { target: old_target }, Node::Link { target: new_target }) => {
            lemma_with_resolved_wf(*new_target, resolved(*new_target));
            lemma_with_resolved_wf(
                *old_target,
                merged_end(resolved(*old_target), resolved(*new_target)),
            );
        },
        (_, _) => {},
    }
}

/// Bringing well-formed children up to date with a well-formed listing gives
/// well-formed children.
pub proof fn lemma_reconciled_wf(old: Seq<(Seq<u8>, Node)>, fresh: Seq<(Seq<u8>, Node)>)
    requires
        children_wf(old),
        children_wf(fresh),
    ensures
        children_wf(reconciled(old, fresh)),
{
    let r = reconciled(old, fresh);
    assert forall|i: int| 0 <= i < r.len() implies node_wf(#[trigger] r[i].1) by {
        lemma_rank(old, fresh[i].0);
        if holds(old, fresh[i].0) {
            lemma_merged_wf(old[rank(old, fresh[i].0)].1, fresh[i].1);
        }
    }
}

/// A subdirectory that was cached, and is still a directory on disk, keeps
/// its cached children when its parent is brought up to date; only its
/// permissions are renewed.
pub proof fn lemma_reconciled_keeps_children(
    old: Seq<(Seq<u8>, Node)>,
    fresh: Seq<(Seq<u8>, Node)>,
    i: int,
)
    requires
        0 <= i < fresh.len(),
        lookup(old, fresh[i].0) is Some,
        dir_children(lookup(old, fresh[i].0)->0) is Some,
        dir_children(fresh[i].1) is Some,
        lookup(old, fresh[i].0)->0 is Link <==> fresh[i].1 is Link,
    ensures
        reconciled(old, fresh)[i].0 == fresh[i].0,
        dir_children(reconciled(old, fresh)[i].1) == dir_children(lookup(old, fresh[i].0)->0),
        resolved(reconciled(old, fresh)[i].1) == (Node::Directory {
            perm: resolved(fresh[i].1)->Directory_perm,
            children: dir_children(lookup(old, fresh[i].0)->0)->0,
        }),
{
    let cached = lookup(old, fresh[i].0)->0;
    let new = fresh[i].1;
    match (cached, new) {
        (Node::Link { target: old_target }, Node::Link { target: new_target }) => {
            lemma_resolved_with_resolved(
                *old_target,
                merged_end(resolved(*old_target), resolved(*new_target)),
            );
        },
        (_, _) => {},
    }
}

/// Once a directory has been opened, all of the way to it is cached.
pub proof fn lemma_opened_cached(
    c: Seq<(Seq<u8>, Node)>,
    path: Seq<Seq<u8>>,
    probes: Seq<DirProbe>,
    i: int,
)
    requires
        0 <= i <= path.len(),
        resolvable(c, path, i),
    ensures
        cached_at(opened(c, path, probes, i), path, i),
    decreases path.len() - i,
{
    if i < path.len() {
        let e = ensured(c, path[i], probes[i]);
        lemma_put_rank(c, path[i], fresh_dir(probes[i], Seq::empty()));
        let n = lookup(e, path[i])->0;
        if !holds(c, path[i]) {
            assert(dir_children(n) == Some(Seq::<(Seq<u8>, Node)>::empty())) by {
                reveal_with_fuel(resolved, 3);
            }
        }
        let inner = opened(dir_children(n)->0, path, probes, i + 1);
        lemma_opened_cached(dir_children(n)->0, path, probes, i + 1);
        lemma_dir_children_with(n, inner);
        lemma_put_rank(e, path[i], with_dir_children(n, inner));
    }
}

/// Giving a cached directory the children that it has changes nothing.
pub proof fn lemma_with_dir_at_same(c: Seq<(Seq<u8>, Node)>, path: Seq<Seq<u8>>, i: int)
    requires
        0 <= i <= path.len(),
        cached_at(c, path, i),
    ensures
        with_dir_at(c, path, i, dir_at(c, path, i)) == c,
    decreases path.len() - i,
{
    if i < path.len() {
        let n = lookup(c, path[i])->0;
        let cc = dir_children(n)->0;
        lemma_with_dir_at_same(cc, path, i + 1);
        lemma_dir_children_with(n, cc);
        lemma_rank(c, path[i]);
    }
}

/// Opening a directory and giving it the children that it has then leaves
/// the cache as the opening left it.
pub proof fn lemma_opened_unchanged(
    c: Seq<(Seq<u8>, Node)>,
    path: Seq<Seq<u8>>,
    probes: Seq<DirProbe>,
)
    requires
        resolvable(c, path, 0),
    ensures
        with_dir_at(
            opened(c, path, probes, 0),
            path,
            0,
            dir_at(opened(c, path, probes, 0), path, 0),
        ) == opened(c, path, probes, 0),
{
    lemma_opened_cached(c, path, probes, 0);
    lemma_with_dir_at_same(opened(c, path, probes, 0), path, 0);
}

/// After a cached directory has been given new children, it is still
/// cached and has those children.
pub proof fn lemma_dir_at_with_dir_at(
    c: Seq<(Seq<u8>, Node)>,
    path: Seq<Seq<u8>>,
    i: int,
    new: Seq<(Seq<u8>, Node)>,
)
    requires
        0 <= i <= path.len(),
        cached_at(c, path, i),
    ensures
        cached_at(with_dir_at(c, path, i, new), path, i),
        dir_at(with_dir_at(c, path, i, new), path, i) == new,
    decreases path.len() - i,
{
    if i < path.len() {
        let n = lookup(c, path[i])->0;
        let cc = dir_children(n)->0;
        let inner = with_dir_at(cc, path, i + 1, new);
        lemma_dir_at_with_dir_at(cc, path, i + 1, new);
        lemma_dir_children_with(n, inner);
        lemma_put_rank(c, path[i], with_dir_children(n, inner));
    }
}

/// Giving a cached directory, in a well-formed cache, well-formed children
/// leaves the cache well-formed.
pub proof fn lemma_with_dir_at_wf(
    c: Seq<(Seq<u8>, Node)>,
    path: Seq<Seq<u8>>,
    i: int,
    new: Seq<(Seq<u8>, Node)>,
)
    requires
        0 <= i <= path.len(),
        cached_at(c, path, i),
        children_wf(c),
        children_wf(new),
    ensures
        children_wf(with_dir_at(c, path, i, new)),
    decreases path.len() - i,
{
    if i < path.len() {
        let n = lookup(c, path[i])->0;
        let cc = dir_children(n)->0;
        lemma_rank(c, path[i]);
        lemma_dir_children_with(n, cc);
        lemma_with_dir_at_wf(cc, path, i + 1, new);
        lemma_dir_children_with(n, with_dir_at(cc, path, i + 1, new));
    }
}

/// Opening a directory in a well-formed cache leaves the cache well-formed.
pub proof fn lemma_opened_wf(
    c: Seq<(Seq<u8>, Node)>,
    path: Seq<Seq<u8>>,
    probes: Seq<DirProbe>,
    i: int,
)
    requires
        0 <= i <= path.len(),
        resolvable(c, path, i),
        children_wf(c),
    ensures
        children_wf(opened(c, path, probes, i)),
    decreases path.len() - i,
{
    if i < path.len() {
        let fresh = fresh_dir(probes[i], Seq::empty());
        assert(node_wf(fresh)) by {
            reveal_with_fuel(node_wf, 3);
        }
        let e = ensured(c, path[i], probes[i]);
        lemma_put_wf(c, path[i], fresh);
        lemma_put_rank(c, path[i], fresh);
        lemma_rank(e, path[i]);
        let n = lookup(e, path[i])->0;
        if !holds(c, path[i]) {
            assert(dir_children(n) == Some(Seq::<(Seq<u8>, Node)>::empty())) by {
                reveal_with_fuel(resolved, 3);
            }
        }
        let cc = dir_children(n)->0;
        lemma_dir_children_with(n, cc);
        lemma_opened_wf(cc, path, probes, i + 1);
        lemma_dir_children_with(n, opened(cc, path, probes, i + 1));
    }
}

/// Giving a directory below a directory new children is giving the upper
/// directory children in which the lower one has the new children.
pub proof fn lemma_with_dir_at_through(
    c: Seq<(Seq<u8>, Node)>,
    anc: Seq<Seq<u8>>,
    path: Seq<Seq<u8>>,
    i: int,
    new: Seq<(Seq<u8>, Node)>,
)
    requires
        0 <= i <= anc.len() <= path.len(),
        anc == path.subrange(0, anc.len() as int),
    ensures
        with_dir_at(c, path, i, new) == with_dir_at(
            c,
            anc,
            i,
            with_dir_at(dir_at(c, anc, i), path, anc.len() as int, new),
        ),
    decreases anc.len() - i,
{
    if i < anc.len() {
        lemma_with_dir_at_through(dir_children(lookup(c, path[i])->0)->0, anc, path, i + 1, new);
    }
}

/// Opening a directory below a cached directory is giving the cached
/// directory the children that it has once the lower directory has been
/// opened below it.
pub proof fn lemma_opened_through(
    c: Seq<(Seq<u8>, Node)>,
    anc: Seq<Seq<u8>>,
    path: Seq<Seq<u8>>,
    probes: Seq<DirProbe>,
    i: int,
)
    requires
        0 <= i <= anc.len() <= path.len(),
        anc == path.subrange(0, anc.len() as int),
        cached_at(c, anc, i),
    ensures
        opened(c, path, probes, i) == with_dir_at(
            c,
            anc,
            i,
            opened(dir_at(c, anc, i), path, probes, anc.len() as int),
        ),
    decreases anc.len() - i,
{
    if i < anc.len() {
        lemma_opened_through(dir_children(lookup(c, path[i])->0)->0, anc, path, probes, i + 1);
    }
}

/// Giving a cached directory new children twice is giving it the second
/// ones.
pub proof fn lemma_with_dir_at_twice(
    c: Seq<(Seq<u8>, Node)>,
    anc: Seq<Seq<u8>>,
    i: int,
    first: Seq<(Seq<u8>, Node)>,
    second: Seq<(Seq<u8>, Node)>,
)
    requires
        0 <= i <= anc.len(),
        cached_at(c, anc, i),
    ensures
        with_dir_at(with_dir_at(c, anc, i, first), anc, i, second) == with_dir_at(
            c,
            anc,
            i,
            second,
        ),
    decreases anc.len() - i,
{
    if i < anc.len() {
        let n = lookup(c, anc[i])->0;
        let cc = dir_children(n)->0;
        let inner = with_dir_at(cc, anc, i + 1, first);
        lemma_with_dir_at_twice(cc, anc, i + 1, first, second);
        lemma_dir_children_with(n, inner);
        lemma_put_rank(c, anc[i], with_dir_children(n, inner));
        lemma_put_put(
            c,
            anc[i],
            with_dir_children(n, inner),
            with_dir_children(n, with_dir_at(cc, anc, i + 1, second)),
        );
    }
}

/// A change to the cache that goes through opening a directory below a
/// cached directory and giving it new children is a change to the children
/// of the cached directory, and leaves that directory cached.
pub proof fn lemma_change_below(
    c: Seq<(Seq<u8>, Node)>,
    anc: Seq<Seq<u8>>,
    path: Seq<Seq<u8>>,
    probes: Seq<DirProbe>,
    new: Seq<(Seq<u8>, Node)>,
)
    requires
        anc.is_prefix_of(path),
        cached_at(c, anc, 0),
    ensures
        cached_at(with_dir_at(opened(c, path, probes, 0), path, 0, new), anc, 0),
        with_dir_at(opened(c, path, probes, 0), path, 0, new) == with_dir_at(
            c,
            anc,
            0,
            dir_at(with_dir_at(opened(c, path, probes, 0), path, 0, new), anc, 0),
        ),
{
    let o = opened(c, path, probes, 0);
    let below = opened(dir_at(c, anc, 0), path, probes, anc.len() as int);
    lemma_opened_through(c, anc, path, probes, 0);
    let changed = with_dir_at(dir_at(o, anc, 0), path, anc.len() as int, new);
    lemma_with_dir_at_through(o, anc, path, 0, new);
    lemma_with_dir_at_twice(c, anc, 0, below, changed);
    lemma_dir_at_with_dir_at(c, anc, 0, changed);
}

} // verus!
