//! The cache of filesystem nodes.
//!
//! A directory holds its children by name, in the order of their names; a
//! symbolic link owns a copy of what it points to. The contracts of this
//! module speak of the cache as a mathematical value, which the module
//! `model` defines.

pub mod lemmas;
pub mod model;

use crate::fs::lemmas::lemma_dir_children_with;
use crate::fs::lemmas::lemma_merged_wf;
use crate::fs::lemmas::lemma_put_rank;
use crate::fs::lemmas::lemma_put_wf;
use crate::fs::lemmas::lemma_rank_is;
use crate::fs::lemmas::lemma_reconciled_wf;
use crate::fs::lemmas::lemma_without_other;
use crate::fs::model::Node;
use crate::fs::model::cached_at;
use crate::fs::model::children_wf;
use crate::fs::model::dir_at;
use crate::fs::model::dir_children;
use crate::fs::model::fresh_dir;
use crate::fs::model::holds;
use crate::fs::model::lookup;
use crate::fs::model::merged;
use crate::fs::model::node_wf;
use crate::fs::model::opened;
use crate::fs::model::put;
use crate::fs::model::rank;
use crate::fs::model::reconciled;
use crate::fs::model::resolvable;
use crate::fs::model::resolved;
use crate::fs::model::with_dir_at;
use crate::fs::model::with_dir_children;
use crate::fs::model::with_resolved;
use crate::fs::model::without;
use crate::path::Component;
use crate::path::FsPath;
use crate::path::lemma_name_lt_irreflexive;
use crate::path::name_lt;
use vstd::prelude::*;

verus! {

/// Mode bit that lets the owner read.
pub const OWNER_READ: u32 = 0o400;

/// Mode bit that lets the owner write.
pub const OWNER_WRITE: u32 = 0o200;

/// Mode bit that lets the owner execute.
pub const OWNER_EXEC: u32 = 0o100;

/// Mode bit that lets the group read.
pub const GROUP_READ: u32 = 0o040;

/// Mode bit that lets the group write.
pub const GROUP_WRITE: u32 = 0o020;

/// Mode bit that lets the group execute.
pub const GROUP_EXEC: u32 = 0o010;

/// Mode bit that lets everybody else read.
pub const OTHER_READ: u32 = 0o004;

/// Mode bit that lets everybody else write.
pub const OTHER_WRITE: u32 = 0o002;

/// Mode bit that lets everybody else execute.
pub const OTHER_EXEC: u32 = 0o001;

/// What the current user may do with a file.
#[derive(Debug, Clone, Copy, PartialEq, Eq, Structural)]
pub struct Permissions {
    pub read: bool,
    pub write: bool,
    pub execute: bool,
}

/// The permissions that the owner bits of `mode` grant.
pub open spec fn owner_bits(mode: u32) -> Permissions {
    Permissions {
        read: mode & OWNER_READ != 0,
        write: mode & OWNER_WRITE != 0,
        execute: mode & OWNER_EXEC != 0,
    }
}

/// The permissions that the group bits of `mode` grant.
pub open spec fn group_bits(mode: u32) -> Permissions {
    Permissions {
        read: mode & GROUP_READ != 0,
        write: mode & GROUP_WRITE != 0,
        execute: mode & GROUP_EXEC != 0,
    }
}

/// The permissions that the bits of `mode` for everybody else grant.
pub open spec fn other_bits(mode: u32) -> Permissions {
    Permissions {
        read: mode & OTHER_READ != 0,
        write: mode & OTHER_WRITE != 0,
        execute: mode & OTHER_EXEC != 0,
    }
}

/// The permissions that `mode` grants on a file of user `file_uid` and group
/// `file_gid` to a process whose effective user is `eff_uid`, whose effective
/// group is `eff_gid`, and whose supplementary groups, if known, are `groups`.
pub open spec fn effective_bits(
    mode: u32,
    file_uid: u32,
    file_gid: u32,
    eff_uid: u32,
    eff_gid: u32,
    groups: Option<Seq<u32>>,
) -> Permissions {
    if file_uid == eff_uid {
        owner_bits(mode)
    } else if file_gid == eff_gid {
        group_bits(mode)
    } else if groups is Some && groups->0.contains(file_gid) {
        group_bits(mode)
    } else {
        other_bits(mode)
    }
}

/// The user that the process acts as.
///
/// Calls `nix::unistd::geteuid`. Nothing is claimed of the result: it is
/// whatever the operating system answers.
#[verifier::external_body]
fn effective_uid() -> (uid: u32) {
    nix::unistd::geteuid().as_raw()
}

/// The group that the process acts as.
///
/// Calls `nix::unistd::getegid`. Nothing is claimed of the result: it is
/// whatever the operating system answers.
#[verifier::external_body]
fn effective_gid() -> (gid: u32) {
    nix::unistd::getegid().as_raw()
}

/// The supplementary groups of the process, or `None` when the operating
/// system does not tell.
///
/// Calls `nix::unistd::getgroups`. Nothing is claimed of the result.
#[verifier::external_body]
fn supplementary_groups() -> (groups: Option<Vec<u32>>) {
    match nix::unistd::getgroups() {
        Ok(groups) => Some(groups.into_iter().map(|gid| gid.as_raw()).collect()),
        Err(_) => None,
    }
}

/// The view of the optional list of groups.
pub open spec fn groups_view(groups: Option<Vec<u32>>) -> Option<Seq<u32>> {
    match groups {
        Some(g) => Some(g@),
        None => None,
    }
}

impl Permissions {
    /// The permissions of the owner, from the raw mode bits.
    pub fn from_raw(perm: u32) -> (r: Self)
        ensures
            r == owner_bits(perm),
    {
        Self {
            read: perm & OWNER_READ != 0,
            write: perm & OWNER_WRITE != 0,
            execute: perm & OWNER_EXEC != 0,
        }
    }

    /// The permissions of the group, from the raw mode bits.
    fn group_from_raw(perm: u32) -> (r: Self)
        ensures
            r == group_bits(perm),
    {
        Self {
            read: perm & GROUP_READ != 0,
            write: perm & GROUP_WRITE != 0,
            execute: perm & GROUP_EXEC != 0,
        }
    }

    /// The permissions of everybody else, from the raw mode bits.
    fn other_from_raw(perm: u32) -> (r: Self)
        ensures
            r == other_bits(perm),
    {
        Self {
            read: perm & OTHER_READ != 0,
            write: perm & OTHER_WRITE != 0,
            execute: perm & OTHER_EXEC != 0,
        }
    }

    /// The permissions that `mode` grants on a file of user `file_uid` and
    /// group `file_gid` to a process with the given identity.
    pub fn for_identity(
        mode: u32,
        file_uid: u32,
        file_gid: u32,
        eff_uid: u32,
        eff_gid: u32,
        groups: &Option<Vec<u32>>,
    ) -> (r: Self)
        ensures
            r == effective_bits(mode, file_uid, file_gid, eff_uid, eff_gid, groups_view(*groups)),
    {
        if file_uid == eff_uid {
            return Self::from_raw(mode);
        }
        if file_gid == eff_gid {
            return Self::group_from_raw(mode);
        }
        match groups {
            Some(list) => {
                let mut i: usize = 0;
                while i < list.len()
                    invariant
                        i <= list.len(),
                        groups_view(*groups) == Some(list@),
                        file_uid != eff_uid,
                        file_gid != eff_gid,
                        forall|k: int| 0 <= k < i ==> list@[k] != file_gid,
                    decreases list.len() - i,
                {
                    if list[i] == file_gid {
                        return Self::group_from_raw(mode);
                    }
                    i += 1;
                }
                Self::other_from_raw(mode)
            },
            None => Self::other_from_raw(mode),
        }
    }

    /// The permissions that `mode` grants to this process on a file of user
    /// `file_uid` and group `file_gid`. Which of the three classes of bits
    /// applies depends on who the process runs as.
    pub fn from_std(mode: u32, file_uid: u32, file_gid: u32) -> (r: Self)
        ensures
            r == owner_bits(mode) || r == group_bits(mode) || r == other_bits(mode),
    {
        let eff_uid = effective_uid();
        let eff_gid = effective_gid();
        let groups = supplementary_groups();
        Self::for_identity(mode, file_uid, file_gid, eff_uid, eff_gid, &groups)
    }
}

impl Default for Permissions {
    fn default() -> (r: Self)
        ensures
            r == (Permissions { read: false, write: false, execute: false }),
    {
        Permissions { read: false, write: false, execute: false }
    }
}

/// No permission at all.
pub open spec fn no_permissions() -> Permissions {
    Permissions { read: false, write: false, execute: false }
}

/// A cached filesystem node.
#[derive(Debug)]
pub enum File {
    /// A regular file.
    Regular { perm: Permissions },
    /// A directory and what is cached of its contents.
    Directory { entries: Entries, perm: Permissions },
    /// A symbolic link, with a copy of what it points to.
    Link { to: Box<File> },
    /// Anything else.
    Other,
}

/// One child of a directory.
#[derive(Debug)]
struct Entry {
    name: Component,
    file: File,
}

/// The cached children of one directory, by name.
#[derive(Debug)]
pub struct Entries {
    items: Vec<Entry>,
}

impl File {
    /// The node as a mathematical value.
    pub open spec fn view(&self) -> Node
        decreases self,
    {
        match self {
            File::Regular { perm } => Node::Regular { perm: *perm },
            File::Directory { entries, perm } => Node::Directory {
                perm: *perm,
                children: entries@,
            },
            File::Link { to } => Node::Link { target: Box::new((**to)@) },
            File::Other => Node::Other,
        }
    }

    /// Every directory in the node holds its children in the order of their
    /// names.
    pub open spec fn wf(&self) -> bool {
        node_wf(self@)
    }

    /// The node at the end of the chain of links.
    pub fn follow_link(&self) -> (r: &Self)
        ensures
            r@ == resolved(self@),
        decreases self,
    {
        match self {
            File::Link { to } => to.follow_link(),
            _ => self,
        }
    }

    /// The node at the end of the chain of links, to be changed in place.
    pub fn follow_link_mut(&mut self) -> (r: &mut Self)
        ensures
            r@ == resolved(old(self)@),
            final(self)@ == with_resolved(old(self)@, final(r)@),
        decreases *old(self),
    {
        match self {
            File::Link { to } => to.follow_link_mut(),
            _ => self,
        }
    }

    /// The node at the end of the chain of links, taken out of it.
    pub fn follow_link_owned(self) -> (r: Self)
        ensures
            r@ == resolved(self@),
        decreases self,
    {
        match self {
            File::Link { to } => (*to).follow_link_owned(),
            other => other,
        }
    }

    /// A regular file with the owner's permissions of the raw mode `perm`.
    pub fn regular(perm: u32) -> (r: Self)
        ensures
            r@ == (Node::Regular { perm: owner_bits(perm) }),
    {
        Self::Regular { perm: Permissions::from_raw(perm) }
    }

    /// A directory with no cached children and the owner's permissions of the
    /// raw mode `perm`.
    pub fn empty_directory(perm: u32) -> (r: Self)
        ensures
            r@ == (Node::Directory { perm: owner_bits(perm), children: Seq::empty() }),
            r.wf(),
    {
        Self::Directory { entries: Entries::new(), perm: Permissions::from_raw(perm) }
    }

    /// The node that is cached for a path that was met for the first time on
    /// the way to a directory.
    pub fn fresh_directory(probe: DirProbe) -> (r: Self)
        ensures
            r@ == fresh_dir(probe, Seq::empty()),
            r.wf(),
    {
        let dir = File::Directory { entries: Entries::new(), perm: probe.perm };
        assert(dir.wf());
        if probe.is_symlink {
            File::Link { to: Box::new(dir) }
        } else {
            dir
        }
    }

    /// The cached children of the directory that this node is or leads to, to
    /// be changed in place.
    pub fn dir_entries_mut(&mut self) -> (r: &mut Entries)
        requires
            dir_children(old(self)@) is Some,
        ensures
            r@ == dir_children(old(self)@)->0,
            final(self)@ == with_dir_children(old(self)@, final(r)@),
    {
        let end = self.follow_link_mut();
        match end {
            File::Directory { entries, .. } => entries,
            _ => vstd::pervasive::unreached(),
        }
    }

    /// The cached children of the directory that this node is or leads to.
    pub fn dir_entries(&self) -> (r: Option<&Entries>)
        ensures
            match r {
                Some(e) => dir_children(self@) == Some(e@),
                None => dir_children(self@) is None,
            },
    {
        match self.follow_link() {
            File::Directory { entries, .. } => Some(entries),
            _ => None,
        }
    }

    /// What this cached node becomes when the disk shows `new` in its place.
    pub fn merge(self, new: File) -> (r: File)
        ensures
            r@ == merged(self@, new@),
            self.wf() && new.wf() ==> r.wf(),
    {
        proof {
            if self.wf() && new.wf() {
                lemma_merged_wf(self@, new@);
            }
        }
        match (self, new) {
            (File::Directory { entries, perm: _ }, File::Directory { entries: _, perm }) => {
                File::Directory { entries, perm }
            },
            (File::Link { to: old_to }, File::Link { to: new_to }) => {
                let mut old_to = old_to;
                let new_end = (*new_to).follow_link_owned();
                let end = old_to.follow_link_mut();
                let keep = match (&*end, &new_end) {
                    (File::Directory { .. }, File::Directory { .. }) => true,
                    (_, _) => false,
                };
                if keep {
                    match end {
                        File::Directory { perm, .. } => {
                            match new_end {
                                File::Directory { perm: new_perm, .. } => {
                                    *perm = new_perm;
                                },
                                _ => {},
                            }
                        },
                        _ => {},
                    }
                } else {
                    *end = new_end;
                }
                File::Link { to: old_to }
            },
            (_, new) => new,
        }
    }
}

impl Entries {
    /// The children in the order of their names, each with its node.
    pub closed spec fn view(&self) -> Seq<(Seq<u8>, Node)>
        decreases self,
    {
        Seq::new(
            self.items.len() as nat,
            |i: int|
                if 0 <= i < self.items.len() {
                    (self.items[i].name@, self.items[i].file@)
                } else {
                    (Seq::empty(), Node::Other)
                },
        )
    }

    /// The names rise strictly, here and in every directory below.
    pub open spec fn wf(&self) -> bool {
        children_wf(self@)
    }

    /// No children.
    pub fn new() -> (r: Self)
        ensures
            r@ == Seq::<(Seq<u8>, Node)>::empty(),
            r.wf(),
    {
        Entries { items: Vec::new() }
    }

    /// How many children are cached.
    pub fn len(&self) -> (r: usize)
        ensures
            r == self@.len(),
    {
        self.items.len()
    }

    /// The name of the `i`-th child.
    pub fn name_at(&self, i: usize) -> (r: &Component)
        requires
            i < self@.len(),
        ensures
            r@ == self@[i as int].0,
    {
        &self.items[i].name
    }

    /// The node of the `i`-th child.
    pub fn file_at(&self, i: usize) -> (r: &File)
        requires
            i < self@.len(),
        ensures
            r@ == self@[i as int].1,
    {
        &self.items[i].file
    }

    /// The node of the `i`-th child, to be changed in place.
    pub fn file_at_mut(&mut self, i: usize) -> (r: &mut File)
        requires
            i < old(self)@.len(),
        ensures
            r@ == old(self)@[i as int].1,
            final(self)@ == old(self)@.update(i as int, (old(self)@[i as int].0, final(r)@)),
    {
        &mut self.items[i].file
    }

    /// The place of `name` among the children.
    fn find(&self, name: &Component) -> (r: usize)
        ensures
            r == rank(self@, name@),
            r <= self@.len(),
    {
        let mut i: usize = 0;
        while i < self.items.len() && self.items[i].name.lt(name)
            invariant
                i <= self.items.len(),
                forall|k: int| 0 <= k < i ==> name_lt(#[trigger] self@[k].0, name@),
            decreases self.items.len() - i,
        {
            i += 1;
        }
        proof {
            lemma_rank_is(self@, name@, i as int);
        }
        i
    }

    /// The child called `key`.
    pub fn get(&self, key: &Component) -> (r: Option<&File>)
        ensures
            match r {
                Some(f) => lookup(self@, key@) == Some(f@) && (self.wf() ==> f.wf()),
                None => lookup(self@, key@) is None,
            },
    {
        let i = self.find(key);
        if i < self.items.len() && self.items[i].name.same(key) {
            Some(&self.items[i].file)
        } else {
            None
        }
    }

    /// Takes the child called `key` out of the directory.
    pub fn remove(&mut self, key: &Component) -> (r: Option<File>)
        requires
            old(self).wf(),
        ensures
            final(self).wf(),
            final(self)@ == without(old(self)@, key@),
            match r {
                Some(f) => lookup(old(self)@, key@) == Some(f@) && f.wf(),
                None => lookup(old(self)@, key@) is None,
            },
    {
        let i = self.find(key);
        if i < self.items.len() && self.items[i].name.same(key) {
            let entry = self.items.remove(i);
            assert(self@ =~= old(self)@.remove(i as int));
            Some(entry.file)
        } else {
            None
        }
    }

    /// Puts `val` under the name `key`, in place of what the name stood for.
    pub fn insert(&mut self, key: Component, val: File)
        requires
            old(self).wf(),
            val.wf(),
        ensures
            final(self).wf(),
            final(self)@ == put(old(self)@, key@, val@),
    {
        let i = self.find(&key);
        proof {
            lemma_put_wf(self@, key@, val@);
        }
        if i < self.items.len() && self.items[i].name.same(&key) {
            self.items[i].file = val;
            assert(self@ =~= old(self)@.update(i as int, (key@, val@)));
        } else {
            self.items.insert(i, Entry { name: key, file: val });
            assert(self@ =~= old(self)@.insert(i as int, (key@, val@)));
        }
    }

    /// Empties the directory and hands out what it held.
    pub fn clear(&mut self) -> (r: Entries)
        ensures
            final(self)@ == Seq::<(Seq<u8>, Node)>::empty(),
            final(self).wf(),
            r@ == old(self)@,
    {
        let mut items: Vec<Entry> = Vec::new();
        core::mem::swap(&mut self.items, &mut items);
        Entries { items }
    }

    /// Brings the cached children up to date with `fresh`, the children that
    /// the directory has on disk, each as a node without children of its own:
    /// what is no longer on disk goes, what is new comes, and what is on both
    /// sides keeps what was cached below it.
    pub fn update_with_readdir(&mut self, fresh: Entries)
        requires
            old(self).wf(),
            fresh.wf(),
        ensures
            final(self).wf(),
            final(self)@ == reconciled(old(self)@, fresh@),
    {
        let mut incoming = fresh.items;
        let mut out: Vec<Entry> = Vec::new();
        let ghost total = fresh@;
        let ghost target = reconciled(old(self)@, fresh@);
        let mut k: usize = 0;
        proof {
            lemma_reconciled_wf(old(self)@, fresh@);
        }
        while incoming.len() > 0
            invariant
                self.wf(),
                total == fresh@,
                children_wf(total),
                target == reconciled(old(self)@, total),
                k + incoming.len() == total.len(),
                out.len() == k,
                forall|j: int|
                    0 <= j < incoming.len() ==> (incoming@[j].name@, incoming@[j].file@) == total[k
                        + j],
                forall|j: int|
                    0 <= j < k ==> (#[trigger] out@[j].name@, out@[j].file@) == target[j],
                forall|j: int|
                    k <= j < total.len() ==> lookup(self@, #[trigger] total[j].0) == lookup(
                        old(self)@,
                        total[j].0,
                    ),
            decreases incoming.len(),
        {
            let entry = incoming.remove(0);
            let Entry { name, file } = entry;
            let ghost before = self@;
            let cached = self.remove(&name);
            let merged_file = match cached {
                Some(old_file) => old_file.merge(file),
                None => file,
            };
            assert(merged_file@ == target[k as int].1);
            proof {
                assert forall|j: int| k + 1 <= j < total.len() implies lookup(
                    self@,
                    #[trigger] total[j].0,
                ) == lookup(old(self)@, total[j].0) by {
                    lemma_name_lt_irreflexive(total[j].0);
                    lemma_without_other(before, name@, total[j].0);
                }
            }
            out.push(Entry { name, file: merged_file });
            k += 1;
        }
        self.items = out;
    }
}

impl Default for Entries {
    fn default() -> (r: Self)
        ensures
            r@ == Seq::<(Seq<u8>, Node)>::empty(),
            r.wf(),
    {
        Entries::new()
    }
}

/// What the disk says of one directory on the way to a directory that is to
/// be opened: whether it is reached through a symbolic link, and what the
/// current user may do with it.
#[derive(Debug, Clone, Copy, PartialEq, Eq, Structural)]
pub struct DirProbe {
    pub is_symlink: bool,
    pub perm: Permissions,
}

/// The root of the cache.
#[derive(Debug)]
pub struct RootFile {
    entries: Entries,
}

/// Descends from `es` along `dir[i..]`, making what is not cached.
fn descend<'a>(es: &'a mut Entries, dir: &FsPath, probes: &Vec<DirProbe>, i: usize) -> (r:
    &'a mut Entries)
    requires
        old(es).wf(),
        i <= dir@.len(),
        probes@.len() == dir@.len(),
        resolvable(old(es)@, dir@, i as int),
    ensures
        r.wf(),
        r@ == dir_at(opened(old(es)@, dir@, probes@, i as int), dir@, i as int),
        final(es)@ == with_dir_at(
            opened(old(es)@, dir@, probes@, i as int),
            dir@,
            i as int,
            final(r)@,
        ),
        final(r).wf() ==> final(es).wf(),
    decreases dir@.len() - i,
{
    if i >= dir.len() {
        return es;
    }
    let name = dir.name(i);
    let ghost c = es@;
    let ghost path = dir@;
    if es.get(name).is_none() {
        es.insert(name.clone(), File::fresh_directory(probes[i]));
    }
    let ghost e = es@;
    let idx = es.find(name);
    proof {
        lemma_put_rank(c, name@, fresh_dir(probes@[i as int], Seq::empty()));
    }
    let ghost n = e[idx as int].1;
    let ghost cc = dir_children(n)->0;
    let ghost inner = opened(cc, path, probes@, i as int + 1);
    proof {
        if !holds(c, name@) {
            assert(dir_children(n) == Some(Seq::<(Seq<u8>, Node)>::empty())) by {
                reveal_with_fuel(resolved, 3);
            }
        }
        lemma_dir_children_with(n, inner);
        lemma_put_rank(e, name@, with_dir_children(n, inner));
        assert forall|w: Seq<(Seq<u8>, Node)>| children_wf(w) implies node_wf(
            #[trigger] with_dir_children(n, w),
        ) by {
            lemma_dir_children_with(n, w);
        }
    }
    let child = es.file_at_mut(idx);
    let sub = child.dir_entries_mut();
    descend(sub, dir, probes, i + 1)
}

impl RootFile {
    /// What is cached directly below the root.
    pub closed spec fn view(&self) -> Seq<(Seq<u8>, Node)> {
        self.entries@
    }

    /// Every cached directory holds its children in the order of their names.
    pub open spec fn wf(&self) -> bool {
        children_wf(self@)
    }

    /// A cache that holds nothing yet.
    pub fn new() -> (r: Self)
        ensures
            r@ == Seq::<(Seq<u8>, Node)>::empty(),
            r.wf(),
    {
        RootFile { entries: Entries::new() }
    }

    /// Whether the directory `dir` can be opened: nothing that is cached on
    /// the way to it is known to be something else than a directory.
    pub fn can_resolve(&self, dir: &FsPath) -> (r: bool)
        ensures
            r == resolvable(self@, dir@, 0),
    {
        let mut cur = &self.entries;
        let mut i: usize = 0;
        while i < dir.len()
            invariant
                i <= dir@.len(),
                resolvable(self@, dir@, 0) == resolvable(cur@, dir@, i as int),
            decreases dir@.len() - i,
        {
            match cur.get(dir.name(i)) {
                Some(file) => {
                    match file.dir_entries() {
                        Some(sub) => {
                            cur = sub;
                        },
                        None => {
                            return false;
                        },
                    }
                },
                None => {
                    return true;
                },
            }
            i += 1;
        }
        true
    }

    /// The cached children of the directory `dir`, if all of the way to it is
    /// cached.
    pub fn find(&self, dir: &FsPath) -> (r: Option<&Entries>)
        ensures
            match r {
                Some(e) => cached_at(self@, dir@, 0) && e@ == dir_at(self@, dir@, 0),
                None => !cached_at(self@, dir@, 0),
            },
    {
        let mut cur = &self.entries;
        let mut i: usize = 0;
        while i < dir.len()
            invariant
                i <= dir@.len(),
                cached_at(self@, dir@, 0) == cached_at(cur@, dir@, i as int),
                dir_at(self@, dir@, 0) == dir_at(cur@, dir@, i as int),
            decreases dir@.len() - i,
        {
            match cur.get(dir.name(i)) {
                Some(file) => {
                    match file.dir_entries() {
                        Some(sub) => {
                            cur = sub;
                        },
                        None => {
                            return None;
                        },
                    }
                },
                None => {
                    return None;
                },
            }
            i += 1;
        }
        Some(cur)
    }

    /// Opens the directory `dir`: follows the path from the root, makes an
    /// empty directory for every name that is not cached yet, from the probe
    /// that belongs to it, and hands out the cached children of `dir`.
    pub fn get_entries(&mut self, dir: &FsPath, probes: &Vec<DirProbe>) -> (r: &mut Entries)
        requires
            old(self).wf(),
            probes@.len() == dir@.len(),
            resolvable(old(self)@, dir@, 0),
        ensures
            r.wf(),
            r@ == dir_at(opened(old(self)@, dir@, probes@, 0), dir@, 0),
            final(self)@ == with_dir_at(opened(old(self)@, dir@, probes@, 0), dir@, 0, final(r)@),
            final(r).wf() ==> final(self).wf(),
    {
        descend(&mut self.entries, dir, probes, 0)
    }
}

impl Default for RootFile {
    fn default() -> (r: Self)
        ensures
            r@ == Seq::<(Seq<u8>, Node)>::empty(),
            r.wf(),
    {
        RootFile::new()
    }
}

} // verus!
