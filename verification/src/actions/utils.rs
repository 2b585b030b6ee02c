//! Listing the cache: the walk that turns a directory of the cache into
//! rows, the search for the rows of a directory among the rows on display,
//! and the steps that several commands share.

use core::ops::Range;
use crate::actions::blocks::below;
use crate::actions::listing::block;
use crate::actions::listing::block_end;
use crate::actions::listing::block_start;
use crate::actions::listing::children_from;
use crate::actions::listing::descends;
use crate::actions::listing::dirs_from;
use crate::actions::listing::first_in;
use crate::actions::listing::first_out;
use crate::actions::listing::flattened;
use crate::actions::listing::fresh_node;
use crate::actions::listing::lemma_fresh_node_metadata;
use crate::actions::listing::lemma_rows_below;
use crate::actions::listing::metadata_of;
use crate::actions::listing::reread;
use crate::actions::listing::reread_dir;
use crate::actions::listing::row_of;
use crate::actions::listing::rows_from;
use crate::actions::listing::whole_display;
use crate::actions::renderer::FileType;
use crate::actions::renderer::Item;
use crate::actions::renderer::Items;
use crate::actions::renderer::Level;
use crate::actions::renderer::MAX_LEVEL;
use crate::actions::renderer::Metadata;
use crate::actions::renderer::Patch;
use crate::actions::renderer::PatchView;
use crate::actions::renderer::Row;
use crate::actions::renderer::patched;
use crate::actions::renderer::rows_of;
use crate::actions::states::ExpendedDir;
use crate::fs;
use crate::fs::DirProbe;
use crate::fs::File;
use crate::fs::Permissions;
use crate::fs::RootFile;
use crate::fs::model::Node;
use crate::fs::model::dir_at;
use crate::fs::model::opened;
use crate::fs::model::reconciled;
use crate::fs::model::resolvable;
use crate::fs::model::with_dir_at;
use crate::path::Component;
use crate::path::FsPath;
use vstd::prelude::*;

verus! {

/// The node, without children of its own, that stands for something on disk
/// of which `meta` is known.
pub fn fresh_file(meta: Metadata) -> (r: File)
    ensures
        r@ == fresh_node(meta),
        r.wf(),
{
    proof {
        lemma_fresh_node_metadata(meta);
    }
    match meta.file_type {
        FileType::Regular => File::Regular { perm: meta.perm },
        FileType::Directory => File::Directory { entries: fs::Entries::new(), perm: meta.perm },
        FileType::LinkRegular => {
            let end = File::Regular { perm: meta.perm };
            assert(end@ == (Node::Regular { perm: meta.perm }));
            File::Link { to: Box::new(end) }
        },
        FileType::LinkDirectory => {
            let end = File::Directory { entries: fs::Entries::new(), perm: meta.perm };
            assert(end@ == (Node::Directory { perm: meta.perm, children: Seq::empty() }));
            File::Link { to: Box::new(end) }
        },
        FileType::LinkOther => {
            let end = File::Other;
            File::Link { to: Box::new(end) }
        },
        FileType::Other => File::Other,
    }
}

/// The row that shows `file` at `path`, `level` levels deep.
pub fn file_to_item(level: Level, path: &FsPath, file: &File) -> (r: Item)
    ensures
        r@ == row_of(level@, path@, file@),
{
    let metadata = match file {
        File::Regular { perm } => Metadata { perm: *perm, file_type: FileType::Regular },
        File::Directory { perm, entries: _ } => Metadata {
            perm: *perm,
            file_type: FileType::Directory,
        },
        File::Link { to } => {
            let end = to.follow_link();
            match end {
                File::Regular { perm } => Metadata {
                    perm: *perm,
                    file_type: FileType::LinkRegular,
                },
                File::Directory { perm, entries: _ } => Metadata {
                    perm: *perm,
                    file_type: FileType::LinkDirectory,
                },
                _ => Metadata { perm: Permissions::default(), file_type: FileType::LinkOther },
            }
        },
        File::Other => Metadata { perm: Permissions::default(), file_type: FileType::Other },
    };
    Item { level, path: path.clone(), metadata }
}

/// Where the rows at or below `prefix` stand among `lines`: the first run of
/// such rows, or the empty range at the end if there is none.
pub fn find_in_dir(prefix: &FsPath, lines: &Vec<Item>) -> (r: Range<usize>)
    ensures
        r.start == block_start(rows_of(lines@), prefix@),
        r.end == block_end(rows_of(lines@), prefix@),
        r.start <= r.end <= lines@.len(),
{
    let ghost rows = rows_of(lines@);
    let mut start: usize = 0;
    while start < lines.len() && !lines[start].path.starts_with(prefix)
        invariant
            start <= lines.len(),
            rows == rows_of(lines@),
            first_in(rows, prefix@, 0) == first_in(rows, prefix@, start as int),
        decreases lines.len() - start,
    {
        start += 1;
    }
    let mut end: usize = start;
    while end < lines.len() && lines[end].path.starts_with(prefix)
        invariant
            start <= end <= lines.len(),
            rows == rows_of(lines@),
            first_out(rows, prefix@, start as int) == first_out(rows, prefix@, end as int),
        decreases lines.len() - end,
    {
        end += 1;
    }
    start..end
}

/// One directory that a listing is in the middle of.
struct Frame<'a> {
    level: Level,
    dir: FsPath,
    entries: &'a fs::Entries,
    next: usize,
}

/// A listing of a directory that has not been filtered yet.
pub struct FlattenEntries<'a> {
    level: Level,
    entries: &'a fs::Entries,
    dir: &'a FsPath,
}

/// A listing in progress: hands out one row after the other.
pub struct FlattenEntriesIter<'a> {
    stack: Vec<Frame<'a>>,
    filter: &'a ExpendedDir,
}

/// The rows that the first `n` directories of `stack` still owe, the last
/// directory first.
spec fn stack_rows(stack: Seq<Frame<'_>>, n: int, expanded: Set<Seq<Seq<u8>>>) -> Seq<Row>
    decreases n,
{
    if n <= 0 || n > stack.len() {
        Seq::empty()
    } else {
        rows_from(
            stack[n - 1].entries@,
            stack[n - 1].next as int,
            stack[n - 1].dir@,
            stack[n - 1].level@,
            expanded,
        ) + stack_rows(stack, n - 1, expanded)
    }
}

proof fn lemma_stack_rows_same(
    a: Seq<Frame<'_>>,
    b: Seq<Frame<'_>>,
    n: int,
    expanded: Set<Seq<Seq<u8>>>,
)
    requires
        n <= a.len(),
        n <= b.len(),
        forall|k: int| 0 <= k < n ==> a[k] == b[k],
    ensures
        stack_rows(a, n, expanded) == stack_rows(b, n, expanded),
    decreases n,
{
    if n > 0 {
        lemma_stack_rows_same(a, b, n - 1, expanded);
    }
}

impl<'a> FlattenEntries<'a> {
    /// A listing of the directory `dir`, which is shown at `level` and holds
    /// `entries`.
    pub fn new(level: Level, entries: &'a fs::Entries, dir: &'a FsPath) -> (r: Self)
        ensures
            r.level() == level,
            forall|expanded: Set<Seq<Seq<u8>>>| #[trigger]
                r.rows(expanded) == flattened(entries@, dir@, level@, expanded),
    {
        FlattenEntries { level, entries, dir }
    }

    /// The rows that the listing will give when `expanded` are the expanded
    /// directories.
    pub closed spec fn rows(&self, expanded: Set<Seq<Seq<u8>>>) -> Seq<Row> {
        flattened(self.entries@, self.dir@, self.level@, expanded)
    }

    /// The level of the directory that is listed.
    pub closed spec fn level(&self) -> Level {
        self.level
    }

    /// Starts the listing, with `filter` as the expanded directories.
    pub fn filter(self, filter: &'a ExpendedDir) -> (r: FlattenEntriesIter<'a>)
        requires
            self.level()@ < usize::MAX,
        ensures
            r.remaining() == self.rows(filter@),
    {
        let mut stack: Vec<Frame<'a>> = Vec::new();
        stack.push(
            Frame {
                level: self.level.increment(),
                dir: self.dir.clone(),
                entries: self.entries,
                next: 0,
            },
        );
        proof {
            assert(stack_rows(stack@, 0, filter@) == Seq::<Row>::empty());
        }
        FlattenEntriesIter { stack, filter }
    }
}

impl<'a> FlattenEntriesIter<'a> {
    /// The rows that the listing has still to give.
    pub closed spec fn remaining(&self) -> Seq<Row> {
        stack_rows(self.stack@, self.stack@.len() as int, self.filter@)
    }

    /// The next row of the listing, or `None` when it is over.
    pub fn next_item(&mut self) -> (r: Option<Item>)
        ensures
            match r {
                Some(item) => old(self).remaining() == seq![item@] + final(self).remaining(),
                None => old(self).remaining() == Seq::<Row>::empty() && final(self).remaining()
                    == Seq::<Row>::empty(),
            },
    {
        loop
            invariant
                self.remaining() == old(self).remaining(),
                self.filter == old(self).filter,
            decreases self.stack.len(),
        {
            let n = self.stack.len();
            if n == 0 {
                return None;
            }
            let ghost before = self.stack@;
            let ghost expanded = self.filter@;
            let entries: &'a fs::Entries = self.stack[n - 1].entries;
            let idx = self.stack[n - 1].next;
            let level = self.stack[n - 1].level;
            if idx >= entries.len() {
                self.stack.pop();
                proof {
                    lemma_stack_rows_same(before, self.stack@, n - 1, expanded);
                }
                continue ;
            }
            let name = entries.name_at(idx);
            let file = entries.file_at(idx);
            let path = self.stack[n - 1].dir.join(name);
            let ghost dir = before[n - 1].dir@;
            let item = file_to_item(level, &path, file);
            self.stack[n - 1].next = idx + 1;
            let ghost middle = self.stack@;
            proof {
                lemma_stack_rows_same(before, middle, n - 1, expanded);
                lemma_rows_below(file@, path@, level@, expanded);
                assert(rows_from(entries@, idx as int, dir, level@, expanded) == block(
                    name@,
                    file@,
                    dir,
                    level@,
                    expanded,
                ) + rows_from(entries@, idx as int + 1, dir, level@, expanded));
            }
            match file.dir_entries() {
                Some(sub) => {
                    if self.filter.contains(&path) && level.to_num() < MAX_LEVEL {
                        self.stack.push(
                            Frame { level: level.increment(), dir: path, entries: sub, next: 0 },
                        );
                        proof {
                            lemma_stack_rows_same(middle, self.stack@, n as int, expanded);
                        }
                    }
                },
                None => {},
            }
            return Some(item);
        }
    }

    /// All the rows that the listing has still to give.
    pub fn collect(self) -> (r: Vec<Item>)
        ensures
            rows_of(r@) == self.remaining(),
    {
        let mut iter = self;
        let mut out: Vec<Item> = Vec::new();
        loop
            invariant
                rows_of(out@) + iter.remaining() == self.remaining(),
            decreases iter.remaining().len(),
        {
            match iter.next_item() {
                Some(item) => {
                    out.push(item);
                },
                None => {
                    return out;
                },
            }
        }
    }
}

/// The cached children of one directory, together with its path.
pub struct Entries<'a> {
    pub entries: &'a mut fs::Entries,
    pub dir: &'a FsPath,
}

/// Opens the directory `dir` in the cache `root`.
pub fn get_entries<'a>(root: &'a mut RootFile, dir: &'a FsPath, probes: &Vec<DirProbe>) -> (r:
    Entries<'a>)
    requires
        old(root).wf(),
        probes@.len() == dir@.len(),
        resolvable(old(root)@, dir@, 0),
    ensures
        r.dir == dir,
        r.entries.wf(),
        r.entries@ == dir_at(opened(old(root)@, dir@, probes@, 0), dir@, 0),
        final(root)@ == with_dir_at(
            opened(old(root)@, dir@, probes@, 0),
            dir@,
            0,
            final(r.entries)@,
        ),
        final(r.entries).wf() ==> final(root).wf(),
{
    let entries = root.get_entries(dir, probes);
    Entries { entries, dir }
}

/// The paths of the children of a directory, each with its kind.
#[derive(Debug)]
pub struct Children(pub Vec<(FsPath, FileType)>);

impl Children {
    /// The children as mathematical values.
    pub open spec fn view(&self) -> Seq<(Seq<Seq<u8>>, FileType)> {
        Seq::new(self.0@.len(), |i: int| (self.0@[i].0@, self.0@[i].1))
    }
}

impl<'a> Entries<'a> {
    /// Brings the cached children up to date with `fresh`, what the directory
    /// holds on disk.
    pub fn update_with_readdir(&mut self, fresh: fs::Entries)
        requires
            old(self).entries.wf(),
            fresh.wf(),
        ensures
            final(self).dir == old(self).dir,
            final(self).entries.wf(),
            final(self).entries@ == reconciled(old(self).entries@, fresh@),
            *final(final(self).entries) == *final(old(self).entries),
    {
        self.entries.update_with_readdir(fresh);
    }

    /// Takes the child that `path` names by its last name out of the cache.
    pub fn remove(&mut self, path: &FsPath) -> (r: Option<File>)
        requires
            old(self).entries.wf(),
        ensures
            final(self).dir == old(self).dir,
            final(self).entries.wf(),
            *final(final(self).entries) == *final(old(self).entries),
            path@.len() == 0 ==> r is None && final(self).entries@ == old(self).entries@,
            path@.len() > 0 ==> {
                &&& final(self).entries@ == crate::fs::model::without(old(self).entries@, path@.last())
                &&& match r {
                    Some(f) => crate::fs::model::lookup(old(self).entries@, path@.last()) == Some(f@)
                        && f.wf(),
                    None => crate::fs::model::lookup(old(self).entries@, path@.last()) is None,
                }
            },
    {
        match path.file_name() {
            Some(fname) => self.entries.remove(fname),
            None => None,
        }
    }

    /// Puts `file` under the name `fname`.
    pub fn insert(&mut self, fname: &Component, file: File)
        requires
            old(self).entries.wf(),
            file.wf(),
        ensures
            final(self).dir == old(self).dir,
            final(self).entries.wf(),
            final(self).entries@ == crate::fs::model::put(old(self).entries@, fname@, file@),
            *final(final(self).entries) == *final(old(self).entries),
    {
        self.entries.insert(fname.clone(), file);
    }

    /// Starts a listing of the directory, which is shown at `level`.
    pub fn flatten(&self, level: Level) -> (r: FlattenEntries<'_>)
        ensures
            r.level() == level,
            forall|expanded: Set<Seq<Seq<u8>>>| #[trigger]
                r.rows(expanded) == flattened(old(self.entries)@, self.dir@, level@, expanded),
    {
        FlattenEntries { level, entries: &*self.entries, dir: self.dir }
    }

    /// The children of the directory, each as its path and kind, in the
    /// order of their names.
    pub fn children(&self) -> (r: Children)
        ensures
            r@ == children_from(old(self.entries)@, self.dir@),
    {
        children_in(&*self.entries, self.dir)
    }

    /// Puts the whole directory on display: its own row with the permissions
    /// `perm`, then the rows of what is expanded below it.
    pub fn render_entire_buffer(
        &self,
        lines: &mut Items,
        expanded_dir: &ExpendedDir,
        perm: Permissions,
    ) -> (p: Patch)
        ensures
            final(lines)@ == whole_display(old(self.entries)@, self.dir@, perm, expanded_dir@),
            p@ == (PatchView { start: 0, end: None, lines: final(lines)@ }),
            final(lines)@ == patched(old(lines)@, p@),
    {
        let cwd = Item {
            level: Level::base(),
            path: self.dir.clone(),
            metadata: Metadata { perm, file_type: FileType::Directory },
        };
        let mut rows: Vec<Item> = Vec::new();
        rows.push(cwd);
        let mut below = self.flatten(Level::base()).filter(expanded_dir).collect();
        rows.append(&mut below);
        lines.edit().replace_all(rows)
    }
}

/// The children of the directory `dir`, which holds `entries`.
pub fn children_in(entries: &fs::Entries, dir: &FsPath) -> (r: Children)
    ensures
        r@ == children_from(entries@, dir@),
{
    let mut out: Vec<(FsPath, FileType)> = Vec::new();
    let mut i: usize = 0;
    while i < entries.len()
        invariant
            i <= entries@.len(),
            out.len() == i,
            forall|k: int|
                0 <= k < i ==> (#[trigger] out@[k]).0@ == dir@.push(entries@[k].0) && out@[k].1
                    == metadata_of(entries@[k].1).file_type,
        decreases entries@.len() - i,
    {
        let path = dir.join(entries.name_at(i));
        let item = file_to_item(Level::base(), &path, entries.file_at(i));
        out.push((path, item.metadata.file_type));
        i += 1;
    }
    Children(out)
}

/// One directory whose subdirectories a refresh is in the middle of.
struct WalkFrame {
    level: Level,
    children: Children,
    next: usize,
}

/// A refresh of a directory and of what is expanded below it, in progress:
/// says which directory is to be read from disk next, and is told what was
/// found there.
pub struct RefreshWalk {
    stack: Vec<WalkFrame>,
}

/// The directories that the first `n` entries of `stack` still owe, the last
/// entry first.
spec fn walk_rows(stack: Seq<WalkFrame>, n: int) -> Seq<(nat, Seq<Seq<u8>>)>
    decreases n,
{
    if n <= 0 || n > stack.len() {
        Seq::empty()
    } else {
        dirs_from(stack[n - 1].children@, stack[n - 1].next as int, stack[n - 1].level@)
            + walk_rows(stack, n - 1)
    }
}

proof fn lemma_walk_rows_same(a: Seq<WalkFrame>, b: Seq<WalkFrame>, n: int)
    requires
        n <= a.len(),
        n <= b.len(),
        forall|k: int| 0 <= k < n ==> a[k] == b[k],
    ensures
        walk_rows(a, n) == walk_rows(b, n),
    decreases n,
{
    if n > 0 {
        lemma_walk_rows_same(a, b, n - 1);
    }
}

impl RefreshWalk {
    /// The directories that are still to be read, each with the level at
    /// which it is shown, as far as is known now.
    pub closed spec fn pending(&self) -> Seq<(nat, Seq<Seq<u8>>)> {
        walk_rows(self.stack@, self.stack@.len() as int)
    }

    /// A refresh of the directory that is shown at `level` and has the
    /// children `children`.
    pub fn new(level: Level, children: Children) -> (r: Self)
        requires
            level@ < usize::MAX,
        ensures
            r.pending() == dirs_from(children@, 0, level@ + 1),
    {
        let mut stack: Vec<WalkFrame> = Vec::new();
        stack.push(WalkFrame { level: level.increment(), children, next: 0 });
        assert(walk_rows(stack@, 0) == Seq::<(nat, Seq<Seq<u8>>)>::empty());
        RefreshWalk { stack }
    }

    /// The directory that is to be read from disk next, with the level at
    /// which it is shown, or `None` when the refresh is over.
    pub fn next_dir(&mut self) -> (r: Option<(Level, FsPath)>)
        ensures
            match r {
                Some((level, path)) => old(self).pending() == seq![(level@, path@)]
                    + final(self).pending(),
                None => old(self).pending() == Seq::<(nat, Seq<Seq<u8>>)>::empty()
                    && final(self).pending() == Seq::<(nat, Seq<Seq<u8>>)>::empty(),
            },
    {
        loop
            invariant
                self.pending() == old(self).pending(),
            decreases
                    self.stack.len(),
                    if self.stack.len() > 0 {
                        self.stack@.last().children@.len() - self.stack@.last().next
                    } else {
                        0
                    },
        {
            let n = self.stack.len();
            if n == 0 {
                return None;
            }
            let ghost before = self.stack@;
            let idx = self.stack[n - 1].next;
            let level = self.stack[n - 1].level;
            if idx >= self.stack[n - 1].children.0.len() {
                self.stack.pop();
                proof {
                    lemma_walk_rows_same(before, self.stack@, n - 1);
                }
                continue ;
            }
            let is_dir = match self.stack[n - 1].children.0[idx].1 {
                FileType::Directory | FileType::LinkDirectory => true,
                _ => false,
            };
            let path = self.stack[n - 1].children.0[idx].0.clone();
            self.stack[n - 1].next = idx + 1;
            proof {
                lemma_walk_rows_same(before, self.stack@, n - 1);
            }
            if is_dir {
                return Some((level, path));
            }
        }
    }

    /// Takes note of what was found in the directory `path`, which is shown
    /// at `level`: if it is expanded, and not too deep, its subdirectories
    /// are to be read next.
    pub fn descend(
        &mut self,
        level: Level,
        path: &FsPath,
        children: Children,
        expanded_dir: &ExpendedDir,
    )
        ensures
            final(self).pending() == if descends(path@, level@, expanded_dir@) {
                dirs_from(children@, 0, level@ + 1) + old(self).pending()
            } else {
                old(self).pending()
            },
    {
        if expanded_dir.contains(path) && level.to_num() < MAX_LEVEL {
            let ghost before = self.stack@;
            self.stack.push(WalkFrame { level: level.increment(), children, next: 0 });
            proof {
                lemma_walk_rows_same(before, self.stack@, before.len() as int);
            }
        }
    }
}

/// Opens the directory `dir` in the cache, takes in `fresh`, what it holds on
/// disk, and puts the whole directory on display: its own row with the
/// permissions `perm`, then the rows of what is expanded below it.
pub fn reread_and_render(
    dir: &FsPath,
    probes: &Vec<DirProbe>,
    fresh: fs::Entries,
    perm: Permissions,
    states: &mut crate::states::States,
) -> (p: Patch)
    requires
        old(states).wf(),
        fresh.wf(),
        probes@.len() == dir@.len(),
        resolvable(old(states).root_file@, dir@, 0),
    ensures
        final(states).wf(),
        final(states).root_file@ == reread(old(states).root_file@, dir@, probes@, fresh@),
        final(states).actions.expanded_dir@ == old(states).actions.expanded_dir@,
        final(states).actions.rendered_lines@ == whole_display(
            reread_dir(old(states).root_file@, dir@, probes@, fresh@),
            dir@,
            perm,
            old(states).actions.expanded_dir@,
        ),
        p@ == (PatchView { start: 0, end: None, lines: final(states).actions.rendered_lines@ }),
        final(states).actions.rendered_lines@ == patched(old(states).actions.rendered_lines@, p@),
{
    let mut target = get_entries(&mut states.root_file, dir, probes);
    target.update_with_readdir(fresh);
    target.render_entire_buffer(
        &mut states.actions.rendered_lines,
        &states.actions.expanded_dir,
        perm,
    )
}

/// Opens the directory `dir` in the cache and puts the whole directory on
/// display as the cache knows it: its own row with the permissions `perm`,
/// then the rows of what is expanded below it.
pub fn render(
    dir: &FsPath,
    probes: &Vec<DirProbe>,
    perm: Permissions,
    states: &mut crate::states::States,
) -> (p: Patch)
    requires
        old(states).wf(),
        probes@.len() == dir@.len(),
        resolvable(old(states).root_file@, dir@, 0),
    ensures
        final(states).wf(),
        final(states).root_file@ == opened(old(states).root_file@, dir@, probes@, 0),
        final(states).actions.expanded_dir@ == old(states).actions.expanded_dir@,
        final(states).actions.rendered_lines@ == whole_display(
            dir_at(opened(old(states).root_file@, dir@, probes@, 0), dir@, 0),
            dir@,
            perm,
            old(states).actions.expanded_dir@,
        ),
        p@ == (PatchView { start: 0, end: None, lines: final(states).actions.rendered_lines@ }),
        final(states).actions.rendered_lines@ == patched(old(states).actions.rendered_lines@, p@),
{
    proof {
        crate::fs::lemmas::lemma_opened_unchanged(states.root_file@, dir@, probes@);
    }
    let target = get_entries(&mut states.root_file, dir, probes);
    target.render_entire_buffer(
        &mut states.actions.rendered_lines,
        &states.actions.expanded_dir,
        perm,
    )
}

/// Opens the directory `dir` in the cache and takes in `fresh`, what it
/// holds on disk. Returns the children that the directory has then.
pub fn reread_children(
    dir: &FsPath,
    probes: &Vec<DirProbe>,
    fresh: fs::Entries,
    states: &mut crate::states::States,
) -> (r: Children)
    requires
        old(states).wf(),
        fresh.wf(),
        probes@.len() == dir@.len(),
        resolvable(old(states).root_file@, dir@, 0),
    ensures
        final(states).wf(),
        final(states).root_file@ == reread(old(states).root_file@, dir@, probes@, fresh@),
        final(states).actions == old(states).actions,
        r@ == children_from(reread_dir(old(states).root_file@, dir@, probes@, fresh@), dir@),
{
    let mut target = get_entries(&mut states.root_file, dir, probes);
    target.update_with_readdir(fresh);
    target.children()
}

/// Opens the directory `dir` in the cache and returns the children that it
/// is known to have.
pub fn cached_children(
    dir: &FsPath,
    probes: &Vec<DirProbe>,
    states: &mut crate::states::States,
) -> (r: Children)
    requires
        old(states).wf(),
        probes@.len() == dir@.len(),
        resolvable(old(states).root_file@, dir@, 0),
    ensures
        final(states).wf(),
        final(states).root_file@ == opened(old(states).root_file@, dir@, probes@, 0),
        final(states).actions == old(states).actions,
        r@ == children_from(dir_at(opened(old(states).root_file@, dir@, probes@, 0), dir@, 0), dir@),
{
    proof {
        crate::fs::lemmas::lemma_opened_unchanged(states.root_file@, dir@, probes@);
    }
    let target = get_entries(&mut states.root_file, dir, probes);
    target.children()
}

} // verus!
