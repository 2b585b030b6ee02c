//! What the commands share: the rows on display and the set of expanded
//! directories.

use crate::actions::renderer::Items;
use crate::path::FsPath;
use vstd::prelude::*;

verus! {

/// Some path of `paths` is `p`.
pub open spec fn listed(paths: Seq<FsPath>, p: Seq<Seq<u8>>) -> bool {
    exists|i: int| 0 <= i < paths.len() && (#[trigger] paths[i])@ == p
}

/// The path `p` with its beginning `from` replaced by `to`; a path that does
/// not begin with `from` stays as it is.
pub open spec fn rebased(p: Seq<Seq<u8>>, from: Seq<Seq<u8>>, to: Seq<Seq<u8>>) -> Seq<Seq<u8>> {
    if from.is_prefix_of(p) {
        to + p.subrange(from.len() as int, p.len() as int)
    } else {
        p
    }
}

/// The directories whose children are meant to be on display.
#[derive(Debug)]
pub struct ExpendedDir {
    paths: Vec<FsPath>,
}

/// The rows on display together with the set of expanded directories.
#[derive(Debug)]
pub struct States {
    pub rendered_lines: Items,
    pub expanded_dir: ExpendedDir,
}

impl ExpendedDir {
    /// The set of the expanded directories.
    pub closed spec fn view(&self) -> Set<Seq<Seq<u8>>> {
        Set::new(|p: Seq<Seq<u8>>| listed(self.paths@, p))
    }

    /// No directory is expanded.
    pub fn new() -> (r: Self)
        ensures
            r@ == Set::<Seq<Seq<u8>>>::empty(),
    {
        ExpendedDir { paths: Vec::new() }
    }

    /// Whether `path` is expanded.
    pub fn contains(&self, path: &FsPath) -> (r: bool)
        ensures
            r == self@.contains(path@),
    {
        let mut i: usize = 0;
        while i < self.paths.len()
            invariant
                i <= self.paths.len(),
                forall|k: int| 0 <= k < i ==> (#[trigger] self.paths@[k])@ != path@,
            decreases self.paths.len() - i,
        {
            if self.paths[i].same(path) {
                return true;
            }
            i += 1;
        }
        false
    }

    /// Marks `path` as expanded.
    pub fn insert(&mut self, path: FsPath)
        ensures
            final(self)@ == old(self)@.insert(path@),
    {
        if !self.contains(&path) {
            proof {
                assert forall|p: Seq<Seq<u8>>| listed(self.paths@.push(path), p) == (listed(
                    self.paths@,
                    p,
                ) || p == path@) by {
                    lemma_listed_push(self.paths@, path, p);
                }
            }
            self.paths.push(path);
        }
    }

    /// Marks `path` as no longer expanded, and says whether it was.
    pub fn remove(&mut self, path: &FsPath) -> (r: bool)
        ensures
            r == old(self)@.contains(path@),
            final(self)@ == old(self)@.remove(path@),
    {
        let mut kept: Vec<FsPath> = Vec::new();
        let mut found = false;
        let mut i: usize = 0;
        while i < self.paths.len()
            invariant
                i <= self.paths.len(),
                found == listed(self.paths@.subrange(0, i as int), path@),
                forall|p: Seq<Seq<u8>>|
                    listed(kept@, p) == (p != path@ && listed(self.paths@.subrange(0, i as int), p)),
            decreases self.paths.len() - i,
        {
            let ghost kept_before = kept@;
            if self.paths[i].same(path) {
                found = true;
            } else {
                kept.push(self.paths[i].clone());
            }
            i += 1;
            proof {
                let seen = self.paths@.subrange(0, i as int - 1);
                let one = self.paths@[i as int - 1];
                assert(self.paths@.subrange(0, i as int) =~= seen.push(one));
                lemma_listed_push(seen, one, path@);
                assert forall|p: Seq<Seq<u8>>| listed(kept@, p) == (p != path@ && listed(
                    self.paths@.subrange(0, i as int),
                    p,
                )) by {
                    lemma_listed_push(seen, one, p);
                    if one@ != path@ {
                        lemma_listed_push(kept_before, kept@[kept@.len() - 1], p);
                    }
                }
            }
        }
        assert(self.paths@.subrange(0, i as int) =~= self.paths@);
        self.paths = kept;
        found
    }

    /// Gives every expanded directory at or below `from` the path that it has
    /// once `from` has become `to`.
    pub fn rename_prefix(&mut self, from: &FsPath, to: &FsPath)
        ensures
            final(self)@ == old(self)@.map(|p: Seq<Seq<u8>>| rebased(p, from@, to@)),
    {
        let mut moved: Vec<FsPath> = Vec::new();
        let ghost f = |p: Seq<Seq<u8>>| rebased(p, from@, to@);
        let mut i: usize = 0;
        while i < self.paths.len()
            invariant
                i <= self.paths.len(),
                f == |p: Seq<Seq<u8>>| rebased(p, from@, to@),
                moved.len() == i,
                forall|k: int| 0 <= k < i ==> (#[trigger] moved@[k])@ == f(self.paths@[k]@),
            decreases self.paths.len() - i,
        {
            let one = &self.paths[i];
            if one.starts_with(from) {
                let mut target = to.clone();
                let mut k: usize = from.len();
                while k < one.len()
                    invariant
                        from@.len() <= k <= one@.len(),
                        target@ == to@ + one@.subrange(from@.len() as int, k as int),
                    decreases one@.len() - k,
                {
                    target.push(one.name(k).clone());
                    k += 1;
                }
                moved.push(target);
            } else {
                moved.push(one.clone());
            }
            i += 1;
        }
        let ghost before = self.paths@;
        self.paths = moved;
        assert forall|q: Seq<Seq<u8>>| self@.contains(q) == old(self)@.map(f).contains(q) by {
            if listed(self.paths@, q) {
                let k = choose|k: int|
                    0 <= k < self.paths@.len() && (#[trigger] self.paths@[k])@ == q;
                assert(old(self)@.contains(before[k]@));
            }
            if old(self)@.map(f).contains(q) {
                let p = choose|p: Seq<Seq<u8>>| old(self)@.contains(p) && q == f(p);
                let k = choose|k: int| 0 <= k < before.len() && (#[trigger] before[k])@ == p;
                assert(self.paths@[k]@ == q);
            }
        }
    }
}

/// A path is listed after one more was added if it was listed before or is
/// the one that was added.
pub proof fn lemma_listed_push(paths: Seq<FsPath>, one: FsPath, p: Seq<Seq<u8>>)
    ensures
        listed(paths.push(one), p) == (listed(paths, p) || p == one@),
{
    let more = paths.push(one);
    if listed(paths, p) {
        let i = choose|i: int| 0 <= i < paths.len() && (#[trigger] paths[i])@ == p;
        assert(more[i]@ == p);
    }
    if p == one@ {
        assert(more[paths.len() as int]@ == p);
    }
}

impl Clone for ExpendedDir {
    fn clone(&self) -> (r: Self)
        ensures
            r@ == self@,
    {
        let mut paths: Vec<FsPath> = Vec::new();
        let mut i: usize = 0;
        while i < self.paths.len()
            invariant
                i <= self.paths.len(),
                paths.len() == i,
                forall|k: int| 0 <= k < i ==> (#[trigger] paths@[k])@ == self.paths@[k]@,
            decreases self.paths.len() - i,
        {
            paths.push(self.paths[i].clone());
            i += 1;
        }
        let r = ExpendedDir { paths };
        assert forall|p: Seq<Seq<u8>>| r@.contains(p) == self@.contains(p) by {
            if listed(r.paths@, p) {
                let k = choose|k: int| 0 <= k < r.paths@.len() && (#[trigger] r.paths@[k])@ == p;
            }
            if listed(self.paths@, p) {
                let k = choose|k: int|
                    0 <= k < self.paths@.len() && (#[trigger] self.paths@[k])@ == p;
                assert(r.paths@[k]@ == p);
            }
        }
        r
    }
}

impl Default for ExpendedDir {
    fn default() -> (r: Self)
        ensures
            r@ == Set::<Seq<Seq<u8>>>::empty(),
    {
        ExpendedDir::new()
    }
}

} // verus!
