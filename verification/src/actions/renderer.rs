//! The rows on display and the edits that change them.
//!
//! Every edit changes the rows and returns the one patch that brings a
//! line-addressed view of them up to date: applied to a view that showed the
//! rows before the edit, the patch makes it show the rows after it.

use core::ops::Range;
use crate::fs::Permissions;
use crate::path::FsPath;
use vstd::prelude::*;

verus! {

/// The deepest level at which a listing still descends.
pub const MAX_LEVEL: usize = 10;

/// How deep a row is nested below the directory that a listing starts from.
#[derive(Debug, Clone, Copy, PartialEq, Eq, PartialOrd, Ord, Structural)]
pub struct Level(usize);

impl Level {
    /// The depth as a number.
    pub closed spec fn view(self) -> nat {
        self.0 as nat
    }

    /// One level deeper.
    pub fn increment(self) -> (r: Self)
        requires
            self@ < usize::MAX,
        ensures
            r@ == self@ + 1,
    {
        Self(self.0 + 1)
    }

    /// The level of the directory that a listing starts from.
    pub fn base() -> (r: Self)
        ensures
            r@ == 0,
    {
        Self(0)
    }

    /// The depth as a number.
    pub fn to_num(self) -> (r: usize)
        ensures
            r == self@,
    {
        self.0
    }

    /// The level that stands for the depth `n`.
    pub fn from_num(n: usize) -> (r: Self)
        ensures
            r@ == n,
    {
        Self(n)
    }

    /// The deepest level at which a listing still descends.
    pub fn max() -> (r: Self)
        ensures
            r@ == MAX_LEVEL,
    {
        Self(MAX_LEVEL)
    }

    /// Calls `f` once for each level above this one.
    pub fn repeat<F: FnMut()>(self, mut f: F)
        requires
            forall|unit: ()| call_requires(f, unit),
    {
        let level = self.0;
        let mut i: usize = 0;
        while i < level
            invariant
                forall|unit: ()| call_requires(f, unit),
            decreases level - i,
        {
            f();
            i += 1;
        }
    }
}

/// What kind of thing a row stands for, and whether it is reached through a
/// symbolic link.
#[derive(Debug, Clone, Copy, PartialEq, Eq, Structural)]
pub enum FileType {
    Regular,
    Directory,
    LinkRegular,
    LinkDirectory,
    LinkOther,
    Other,
}

/// The kind of a directory entry of which the disk says whether it is a
/// file, a directory or a symbolic link, and, for a link, whether it leads
/// to a file or to a directory.
pub open spec fn kind_of(
    is_file: bool,
    is_dir: bool,
    is_symlink: bool,
    target_is_file: bool,
    target_is_dir: bool,
) -> FileType {
    if is_file {
        FileType::Regular
    } else if is_dir {
        FileType::Directory
    } else if is_symlink {
        if target_is_file {
            FileType::LinkRegular
        } else if target_is_dir {
            FileType::LinkDirectory
        } else {
            FileType::LinkOther
        }
    } else {
        FileType::Other
    }
}

impl FileType {
    /// The kind of a directory entry, from what the disk says of it and, if
    /// it is a symbolic link, of what it leads to.
    pub fn of_disk(
        is_file: bool,
        is_dir: bool,
        is_symlink: bool,
        target_is_file: bool,
        target_is_dir: bool,
    ) -> (r: Self)
        ensures
            r == kind_of(is_file, is_dir, is_symlink, target_is_file, target_is_dir),
    {
        if is_file {
            FileType::Regular
        } else if is_dir {
            FileType::Directory
        } else if is_symlink {
            if target_is_file {
                FileType::LinkRegular
            } else if target_is_dir {
                FileType::LinkDirectory
            } else {
                FileType::LinkOther
            }
        } else {
            FileType::Other
        }
    }

    /// The letter that stands for the kind: `F` for a regular file, `D` for a
    /// directory and `U` for anything else, through a link or not.
    pub fn to_s(self) -> (r: u8)
        ensures
            r == match self {
                FileType::Regular | FileType::LinkRegular => 70u8,
                FileType::Directory | FileType::LinkDirectory => 68u8,
                FileType::LinkOther | FileType::Other => 85u8,
            },
    {
        match self {
            FileType::Regular | FileType::LinkRegular => 70,
            FileType::Directory | FileType::LinkDirectory => 68,
            FileType::LinkOther | FileType::Other => 85,
        }
    }
}

/// What is known of the thing a row stands for.
#[derive(Debug, Clone, Copy, PartialEq, Eq, Structural)]
pub struct Metadata {
    pub perm: Permissions,
    pub file_type: FileType,
}

impl Metadata {
    /// Whether the row stands for a regular file, through a link or not.
    pub open spec fn spec_is_regular(self) -> bool {
        self.file_type is Regular || self.file_type is LinkRegular
    }

    /// Whether the row stands for a directory, through a link or not.
    pub open spec fn spec_is_dir(self) -> bool {
        self.file_type is Directory || self.file_type is LinkDirectory
    }

    /// Whether the row stands for a symbolic link.
    pub open spec fn spec_is_link(self) -> bool {
        self.file_type is LinkRegular || self.file_type is LinkDirectory
            || self.file_type is LinkOther
    }

    /// Whether the row stands for a regular file, through a link or not.
    #[verifier::when_used_as_spec(spec_is_regular)]
    pub fn is_regular(self) -> (r: bool)
        ensures
            r == self.spec_is_regular(),
    {
        matches!(self.file_type, FileType::Regular | FileType::LinkRegular)
    }

    /// Whether the row stands for a directory, through a link or not.
    #[verifier::when_used_as_spec(spec_is_dir)]
    pub fn is_dir(self) -> (r: bool)
        ensures
            r == self.spec_is_dir(),
    {
        matches!(self.file_type, FileType::Directory | FileType::LinkDirectory)
    }

    /// Whether the row stands for a symbolic link.
    #[verifier::when_used_as_spec(spec_is_link)]
    pub fn is_link(self) -> (r: bool)
        ensures
            r == self.spec_is_link(),
    {
        matches!(
            self.file_type,
            FileType::LinkRegular | FileType::LinkDirectory | FileType::LinkOther
        )
    }
}

/// One row, as a mathematical value.
pub struct Row {
    pub level: nat,
    pub path: Seq<Seq<u8>>,
    pub metadata: Metadata,
}

/// One row on display: a snapshot of one cached node.
#[derive(Debug, PartialEq, Eq)]
pub struct Item {
    pub level: Level,
    pub path: FsPath,
    pub metadata: Metadata,
}

impl Item {
    /// The row as a mathematical value.
    pub open spec fn view(&self) -> Row {
        Row { level: self.level@, path: self.path@, metadata: self.metadata }
    }
}

impl Clone for Item {
    fn clone(&self) -> (r: Self)
        ensures
            r@ == self@,
    {
        Item { level: self.level, path: self.path.clone(), metadata: self.metadata }
    }
}

/// The rows of a list of items.
pub open spec fn rows_of(items: Seq<Item>) -> Seq<Row> {
    Seq::new(items.len(), |i: int| items[i]@)
}

/// A copy of a list of items.
pub fn clone_items(items: &Vec<Item>) -> (r: Vec<Item>)
    ensures
        rows_of(r@) == rows_of(items@),
{
    let mut out: Vec<Item> = Vec::new();
    let mut i: usize = 0;
    while i < items.len()
        invariant
            i <= items.len(),
            out.len() == i,
            forall|k: int| 0 <= k < i ==> out@[k]@ == items@[k]@,
        decreases items.len() - i,
    {
        out.push(items[i].clone());
        i += 1;
    }
    out
}

/// The position that `at` names in a sequence of `len` rows: itself when it is
/// not negative, else counted back from the end; nothing when it is still
/// negative then.
pub open spec fn resolved_index(at: int, len: int) -> Option<int> {
    if at >= 0 {
        Some(at)
    } else if len + at >= 0 {
        Some(len + at)
    } else {
        None
    }
}

/// The row that the position `at` names among `rows`, if it names one.
pub open spec fn row_at(rows: Seq<Row>, at: int) -> Option<Row> {
    match resolved_index(at, rows.len() as int) {
        Some(i) => if i < rows.len() {
            Some(rows[i])
        } else {
            None
        },
        None => None,
    }
}

/// The index of the row that the position `at` names among `len` rows, if it
/// names one.
pub open spec fn index_at(len: int, at: int) -> Option<int> {
    match resolved_index(at, len) {
        Some(i) => if i < len {
            Some(i)
        } else {
            None
        },
        None => None,
    }
}

/// A position among the rows, counted from the start or, when negative, from
/// the end.
#[derive(Debug, Clone, Copy, PartialEq, Eq, Structural)]
pub struct LineIdx(pub i64);

impl LineIdx {
    /// The position as it was given.
    pub open spec fn view(self) -> int {
        self.0 as int
    }

    /// The position as it was given.
    pub fn raw(self) -> (r: i64)
        ensures
            r == self@,
    {
        self.0
    }

    /// The position that this names in a sequence of `len` rows, if it names
    /// one that a `usize` can hold.
    pub fn as_usize(self, len: usize) -> (r: Option<usize>)
        ensures
            match r {
                Some(i) => resolved_index(self@, len as int) == Some(i as int),
                None => resolved_index(self@, len as int) is None || resolved_index(
                    self@,
                    len as int,
                )->0 > usize::MAX,
            },
    {
        let idx: i128 = if self.0 >= 0 {
            self.0 as i128
        } else {
            (len as i128) + (self.0 as i128)
        };
        if idx >= 0 && idx <= usize::MAX as i128 {
            Some(idx as usize)
        } else {
            None
        }
    }

    /// The position `rhs` further on, as long as it can be written down.
    pub fn offset(self, rhs: i64) -> (r: Option<LineIdx>)
        ensures
            match r {
                Some(l) => l@ == self@ + rhs,
                None => self@ + rhs < i64::MIN || self@ + rhs > i64::MAX,
            },
    {
        match self.0.checked_add(rhs) {
            Some(v) => Some(LineIdx(v)),
            None => None,
        }
    }
}

impl From<i64> for LineIdx {
    fn from(value: i64) -> (r: Self) {
        Self(value)
    }
}

impl vstd::std_specs::convert::FromSpecImpl<i64> for LineIdx {
    open spec fn obeys_from_spec() -> bool {
        true
    }

    open spec fn from_spec(value: i64) -> Self {
        LineIdx(value)
    }
}

/// The lines `[start, end)` of a view and what is to stand in their place.
/// Without an `end` the patch reaches to the end of the view.
#[derive(Debug, PartialEq, Eq)]
pub struct Patch {
    pub start: usize,
    pub end: Option<usize>,
    pub lines: Vec<Item>,
}

/// A patch as a mathematical value.
pub struct PatchView {
    pub start: int,
    pub end: Option<int>,
    pub lines: Seq<Row>,
}

impl Patch {
    /// The patch as a mathematical value.
    pub open spec fn view(&self) -> PatchView {
        PatchView {
            start: self.start as int,
            end: match self.end {
                Some(e) => Some(e as int),
                None => None,
            },
            lines: rows_of(self.lines@),
        }
    }
}

/// The sequence `s` with `lines` in place of its part `[start, end)`.
pub open spec fn spliced(s: Seq<Row>, start: int, end: int, lines: Seq<Row>) -> Seq<Row> {
    s.subrange(0, start) + lines + s.subrange(end, s.len() as int)
}

/// Where a patch ends in a view of `len` lines.
pub open spec fn patch_end(p: PatchView, len: int) -> int {
    match p.end {
        Some(e) => e,
        None => len,
    }
}

/// What a view that showed `surface` shows after the patch.
pub open spec fn patched(surface: Seq<Row>, p: PatchView) -> Seq<Row> {
    spliced(surface, p.start, patch_end(p, surface.len() as int), p.lines)
}

/// What a view that showed `surface` shows after the patch, if there is one.
pub open spec fn patched_by(surface: Seq<Row>, p: Option<Patch>) -> Seq<Row> {
    match p {
        Some(p) => patched(surface, p@),
        None => surface,
    }
}

/// The position `pos`, or `len` when `pos` lies beyond it.
pub open spec fn clamped(pos: int, len: int) -> int {
    if pos >= len {
        len
    } else {
        pos
    }
}

/// The patch `p` puts `lines` in place of the lines `[start, end)`.
pub open spec fn replaces(p: Option<Patch>, start: int, end: int, lines: Seq<Row>) -> bool {
    p is Some && p->0@ == (PatchView { start, end: Some(end), lines })
}

/// Taking the row at a position counted from the start off the display and
/// showing it again at the same position restores the rows. A view that has
/// followed both patches shows what it would show after one patch that puts
/// the row in its own place, which changes nothing where the view showed the
/// row.
pub proof fn lemma_remove_then_insert(rows: Seq<Row>, at: int, surface: Seq<Row>)
    requires
        0 <= at < rows.len(),
        at < surface.len(),
    ensures
        resolved_index(at, rows.len() as int) == Some(at),
        resolved_index(at, rows.remove(at).len() as int) == Some(at),
        at <= rows.remove(at).len(),
        spliced(rows.remove(at), at, at, seq![rows[at]]) == rows,
        patched(
            patched(surface, PatchView { start: at, end: Some(at + 1), lines: Seq::empty() }),
            PatchView { start: at, end: Some(at), lines: seq![rows[at]] },
        ) == patched(surface, PatchView { start: at, end: Some(at + 1), lines: seq![rows[at]] }),
        surface[at] == rows[at] ==> patched(
            surface,
            PatchView { start: at, end: Some(at + 1), lines: seq![rows[at]] },
        ) == surface,
{
}

/// An edit changes the number of rows by the number of rows that come minus
/// the number of rows that go.
pub proof fn lemma_spliced_len(rows: Seq<Row>, start: int, end: int, lines: Seq<Row>)
    requires
        0 <= start <= end <= rows.len(),
    ensures
        spliced(rows, start, end, lines).len() == rows.len() + lines.len() - (end - start),
{
}

/// The rows on display, in the order in which they are shown.
#[derive(Debug)]
pub struct Items {
    rows: Vec<Item>,
}

/// The right to edit the rows on display.
pub struct Edit<'a> {
    pub inner: &'a mut Items,
}

/// The rows on display, to be gone through from the first to the last.
pub struct ItemIter<'a> {
    inner: &'a Items,
}

/// Whether `r` can come of going through the first `n` of `items` with `f`,
/// starting from `init`: each row is handed to `f` together with what came of
/// the rows before it.
pub open spec fn folded<B, F: Fn(B, &Item) -> B>(
    f: F,
    init: B,
    items: Seq<Item>,
    n: int,
    r: B,
) -> bool
    decreases n,
{
    if n <= 0 {
        r == init
    } else {
        exists|mid: B|
            folded(f, init, items, n - 1, mid) && #[trigger] call_ensures(
                f,
                (mid, &items[n - 1]),
                r,
            )
    }
}

/// A row on display, named by its position.
pub struct PathGetter<'a> {
    inner: &'a Items,
    idx: LineIdx,
}

/// Puts `lines` in place of the part `[start, end)` of `rows`.
fn splice(rows: &mut Vec<Item>, start: usize, end: usize, lines: Vec<Item>)
    requires
        start <= end <= old(rows).len(),
    ensures
        rows_of(final(rows)@) == spliced(
            rows_of(old(rows)@),
            start as int,
            end as int,
            rows_of(lines@),
        ),
{
    let mut lines = lines;
    let mut tail = rows.split_off(end);
    rows.truncate(start);
    rows.append(&mut lines);
    rows.append(&mut tail);
}

impl Items {
    /// The rows as mathematical values.
    pub closed spec fn view(&self) -> Seq<Row> {
        rows_of(self.rows@)
    }

    /// The rows as they are held.
    pub closed spec fn list(&self) -> Vec<Item> {
        self.rows
    }

    /// The rows as they are held are the rows.
    pub proof fn lemma_list(&self)
        ensures
            rows_of(self.list()@) == self@,
    {
    }

    /// No rows.
    pub fn new() -> (r: Self)
        ensures
            r@ == Seq::<Row>::empty(),
    {
        Items { rows: Vec::new() }
    }

    /// How many rows are on display.
    pub fn len(&self) -> (r: usize)
        ensures
            r == self@.len(),
    {
        self.rows.len()
    }

    /// The rows on display.
    pub fn rows(&self) -> (r: &Vec<Item>)
        ensures
            *r == self.list(),
            rows_of(r@) == self@,
    {
        &self.rows
    }

    /// The right to edit the rows.
    pub fn edit(&mut self) -> (e: Edit<'_>)
        ensures
            *e.inner == *old(self),
            *final(self) == *final(e.inner),
    {
        Edit { inner: self }
    }

    /// The row at `idx`, to be looked at.
    pub fn get(&self, idx: LineIdx) -> (g: PathGetter<'_>)
        ensures
            g.items() == *self,
            g.at() == idx,
    {
        PathGetter { inner: self, idx }
    }

    /// The rows, to be gone through from the first to the last.
    pub fn iter(&self) -> (r: ItemIter<'_>)
        ensures
            r.items() == *self,
    {
        ItemIter { inner: self }
    }

    /// The row at the position `idx`, if there is one.
    pub fn row(&self, idx: LineIdx) -> (r: Option<&Item>)
        ensures
            match r {
                Some(item) => row_at(self@, idx@) == Some(item@),
                None => row_at(self@, idx@) is None,
            },
    {
        match self.index(idx) {
            Some(i) => Some(&self.rows[i]),
            None => None,
        }
    }

    /// The index of the row at the position `idx`, if there is one.
    pub fn index(&self, idx: LineIdx) -> (r: Option<usize>)
        ensures
            match r {
                Some(i) => index_at(self@.len() as int, idx@) == Some(i as int),
                None => index_at(self@.len() as int, idx@) is None,
            },
    {
        match idx.as_usize(self.rows.len()) {
            Some(i) => {
                if i < self.rows.len() {
                    Some(i)
                } else {
                    None
                }
            },
            None => None,
        }
    }
}

impl Default for Items {
    fn default() -> (r: Self)
        ensures
            r@ == Seq::<Row>::empty(),
    {
        Items::new()
    }
}

impl<'a> ItemIter<'a> {
    /// The rows that are gone through.
    pub closed spec fn items(&self) -> Items {
        *self.inner
    }

    /// What comes of handing every row, from the first to the last, to `f`
    /// together with what came of the rows before it, starting from `init`.
    pub fn fold<B, F: Fn(B, &Item) -> B>(self, init: B, f: F) -> (r: B)
        requires
            forall|acc: B, item: &Item| call_requires(f, (acc, item)),
        ensures
            folded(f, init, self.items().list()@, self.items().list()@.len() as int, r),
    {
        let mut acc = init;
        let mut i: usize = 0;
        while i < self.inner.rows.len()
            invariant
                i <= self.inner.rows.len(),
                forall|acc: B, item: &Item| call_requires(f, (acc, item)),
                folded(f, init, self.inner.rows@, i as int, acc),
            decreases self.inner.rows.len() - i,
        {
            let ghost before = acc;
            acc = f(acc, &self.inner.rows[i]);
            i += 1;
            assert(call_ensures(f, (before, &self.inner.rows@[i as int - 1]), acc));
        }
        acc
    }
}

impl<'a> PathGetter<'a> {
    /// The rows that the position is read against.
    pub closed spec fn items(&self) -> Items {
        *self.inner
    }

    /// The position that is looked at.
    pub closed spec fn at(&self) -> LineIdx {
        self.idx
    }

    /// The row that is looked at, if the position names one.
    pub open spec fn target(&self) -> Option<Item> {
        match resolved_index(self.at()@, self.items()@.len() as int) {
            Some(i) => if i < self.items()@.len() {
                Some(self.items().list()@[i])
            } else {
                None
            },
            None => None,
        }
    }

    /// What `f` makes of the row, or nothing when the position names no row.
    pub fn and_then<T, F: FnOnce(&Item) -> Option<T>>(self, f: F) -> (r: Option<T>)
        requires
            self.target() is Some ==> call_requires(f, (&self.target()->0,)),
        ensures
            match self.target() {
                Some(item) => call_ensures(f, (&item,), r),
                None => r is None,
            },
    {
        match self.idx.as_usize(self.inner.rows.len()) {
            Some(i) => {
                if i < self.inner.rows.len() {
                    f(&self.inner.rows[i])
                } else {
                    None
                }
            },
            None => None,
        }
    }
}

impl<'a> Edit<'a> {
    /// Shows `lines` and nothing else.
    pub fn replace_all(self, lines: Vec<Item>) -> (p: Patch)
        ensures
            final(self.inner)@ == rows_of(lines@),
            p@ == (PatchView { start: 0, end: None, lines: rows_of(lines@) }),
            final(self.inner)@ == patched(old(self.inner)@, p@),
    {
        let copy = clone_items(&lines);
        self.inner.rows = lines;
        Patch { start: 0, end: None, lines: copy }
    }

    /// Shows `lines` in place of the rows that `range` picks from the rows on
    /// display. A range that does not lie within the rows changes nothing.
    pub fn replace_range<F: FnOnce(&Vec<Item>) -> Range<usize>>(
        self,
        lines: Vec<Item>,
        range: F,
    ) -> (p: Option<Patch>)
        requires
            call_requires(range, (&old(self.inner).list(),)),
        ensures
            final(self.inner)@ == patched_by(old(self.inner)@, p),
            exists|sel: Range<usize>|
                {
                    &&& #[trigger] call_ensures(range, (&old(self.inner).list(),), sel)
                    &&& if sel.start <= sel.end <= old(self.inner)@.len() {
                        &&& replaces(p, sel.start as int, sel.end as int, rows_of(lines@))
                        &&& final(self.inner)@ == spliced(
                            old(self.inner)@,
                            sel.start as int,
                            sel.end as int,
                            rows_of(lines@),
                        )
                    } else {
                        p is None && final(self.inner)@ == old(self.inner)@
                    }
                },
    {
        let sel = range(&self.inner.rows);
        if sel.start <= sel.end && sel.end <= self.inner.rows.len() {
            let copy = clone_items(&lines);
            splice(&mut self.inner.rows, sel.start, sel.end, lines);
            Some(Patch { start: sel.start, end: Some(sel.end), lines: copy })
        } else {
            None
        }
    }

    /// Shows `lines` before the row at `at`, or after the last row when `at`
    /// is just past it. A position further out changes nothing.
    pub fn insert(self, lines: Vec<Item>, at: LineIdx) -> (p: Option<Patch>)
        ensures
            final(self.inner)@ == patched_by(old(self.inner)@, p),
            match resolved_index(at@, old(self.inner)@.len() as int) {
                Some(i) if i <= old(self.inner)@.len() => {
                    &&& replaces(p, i, i, rows_of(lines@))
                    &&& final(self.inner)@ == spliced(old(self.inner)@, i, i, rows_of(lines@))
                },
                _ => p is None && final(self.inner)@ == old(self.inner)@,
            },
    {
        match at.as_usize(self.inner.rows.len()) {
            Some(i) => {
                if i <= self.inner.rows.len() {
                    let copy = clone_items(&lines);
                    splice(&mut self.inner.rows, i, i, lines);
                    Some(Patch { start: i, end: Some(i), lines: copy })
                } else {
                    None
                }
            },
            None => None,
        }
    }

    /// Shows `item` at the position that `at` picks from the rows on display,
    /// or after the last row when that position lies further out.
    pub fn insert_dyn<F: FnOnce(&Vec<Item>) -> usize>(self, item: Item, at: F) -> (p: Patch)
        requires
            call_requires(at, (&old(self.inner).list(),)),
        ensures
            final(self.inner)@ == patched(old(self.inner)@, p@),
            exists|pos: usize|
                {
                    &&& #[trigger] call_ensures(at, (&old(self.inner).list(),), pos)
                    &&& p@ == (PatchView {
                        start: clamped(pos as int, old(self.inner)@.len() as int),
                        end: Some(clamped(pos as int, old(self.inner)@.len() as int)),
                        lines: seq![item@],
                    })
                    &&& final(self.inner)@ == old(self.inner)@.insert(
                        clamped(pos as int, old(self.inner)@.len() as int),
                        item@,
                    )
                },
    {
        let pos = at(&self.inner.rows);
        let i = if pos >= self.inner.rows.len() {
            self.inner.rows.len()
        } else {
            pos
        };
        let mut lines: Vec<Item> = Vec::new();
        lines.push(item.clone());
        self.inner.rows.insert(i, item);
        let p = Patch { start: i, end: Some(i), lines };
        assert(p@.lines =~= seq![item@]);
        p
    }

    /// Takes the row at `at` off the display. A position that names no row
    /// changes nothing.
    pub fn remove(self, at: LineIdx) -> (p: Option<Patch>)
        ensures
            final(self.inner)@ == patched_by(old(self.inner)@, p),
            match resolved_index(at@, old(self.inner)@.len() as int) {
                Some(i) if i < old(self.inner)@.len() => {
                    &&& replaces(p, i, i + 1, Seq::empty())
                    &&& final(self.inner)@ == old(self.inner)@.remove(i)
                },
                _ => p is None && final(self.inner)@ == old(self.inner)@,
            },
    {
        match at.as_usize(self.inner.rows.len()) {
            Some(i) => {
                if i < self.inner.rows.len() {
                    splice(&mut self.inner.rows, i, i + 1, Vec::new());
                    let p = Patch { start: i, end: Some(i + 1), lines: Vec::new() };
                    assert(p@.lines =~= Seq::<Row>::empty());
                    Some(p)
                } else {
                    None
                }
            },
            None => None,
        }
    }

    /// Takes the rows that `range` picks from the rows on display off the
    /// display. A range that does not lie within the rows changes nothing.
    pub fn remove_range<F: FnOnce(&Vec<Item>) -> Range<usize>>(self, range: F) -> (p: Option<
        Patch,
    >)
        requires
            call_requires(range, (&old(self.inner).list(),)),
        ensures
            final(self.inner)@ == patched_by(old(self.inner)@, p),
            exists|sel: Range<usize>|
                {
                    &&& #[trigger] call_ensures(range, (&old(self.inner).list(),), sel)
                    &&& if sel.start <= sel.end <= old(self.inner)@.len() {
                        &&& replaces(p, sel.start as int, sel.end as int, Seq::empty())
                        &&& final(self.inner)@ == spliced(
                            old(self.inner)@,
                            sel.start as int,
                            sel.end as int,
                            Seq::empty(),
                        )
                    } else {
                        p is None && final(self.inner)@ == old(self.inner)@
                    }
                },
    {
        let sel = range(&self.inner.rows);
        if sel.start <= sel.end && sel.end <= self.inner.rows.len() {
            splice(&mut self.inner.rows, sel.start, sel.end, Vec::new());
            let p = Patch { start: sel.start, end: Some(sel.end), lines: Vec::new() };
            assert(p@.lines =~= Seq::<Row>::empty());
            Some(p)
        } else {
            None
        }
    }
}

} // verus!
