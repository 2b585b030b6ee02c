//! Absolute paths as sequences of entry names.
//!
//! A path is the list of names met on the way down from the filesystem root;
//! the root itself is the empty list. A name is an arbitrary byte string and
//! names are ordered byte by byte, a proper prefix coming first. Paths are
//! ordered name by name in the same way.

use vstd::prelude::*;

verus! {

/// The byte `/`, which separates names in the textual form of a path.
pub const SEPARATOR: u8 = 47;

/// The byte `.`.
pub const DOT: u8 = 46;

/// `a` comes before `b` when both are compared byte by byte from index `i` on.
pub open spec fn name_lt_from(a: Seq<u8>, b: Seq<u8>, i: int) -> bool
    decreases a.len() - i,
{
    if i >= b.len() {
        false
    } else if i >= a.len() {
        true
    } else if a[i] != b[i] {
        a[i] < b[i]
    } else {
        name_lt_from(a, b, i + 1)
    }
}

/// The strict order on names: byte-wise lexicographic.
pub open spec fn name_lt(a: Seq<u8>, b: Seq<u8>) -> bool {
    name_lt_from(a, b, 0)
}

/// `a` comes before `b` when both are compared name by name from index `i` on.
pub open spec fn path_lt_from(a: Seq<Seq<u8>>, b: Seq<Seq<u8>>, i: int) -> bool
    decreases a.len() - i,
{
    if i >= b.len() {
        false
    } else if i >= a.len() {
        true
    } else if a[i] != b[i] {
        name_lt(a[i], b[i])
    } else {
        path_lt_from(a, b, i + 1)
    }
}

/// The strict order on paths: name-wise lexicographic.
pub open spec fn path_lt(a: Seq<Seq<u8>>, b: Seq<Seq<u8>>) -> bool {
    path_lt_from(a, b, 0)
}

proof fn lemma_name_lt_from_irreflexive(a: Seq<u8>, i: int)
    requires
        0 <= i,
    ensures
        !name_lt_from(a, a, i),
    decreases a.len() - i,
{
    if i < a.len() {
        lemma_name_lt_from_irreflexive(a, i + 1);
    }
}

proof fn lemma_name_lt_from_transitive(a: Seq<u8>, b: Seq<u8>, c: Seq<u8>, i: int)
    requires
        0 <= i,
        name_lt_from(a, b, i),
        name_lt_from(b, c, i),
    ensures
        name_lt_from(a, c, i),
    decreases a.len() - i,
{
    if i < a.len() && a[i] == b[i] && b[i] == c[i] {
        lemma_name_lt_from_transitive(a, b, c, i + 1);
    }
}

proof fn lemma_name_lt_from_total(a: Seq<u8>, b: Seq<u8>, i: int)
    requires
        0 <= i <= a.len(),
        i <= b.len(),
        forall|k: int| 0 <= k < i ==> a[k] == b[k],
    ensures
        name_lt_from(a, b, i) || name_lt_from(b, a, i) || a == b,
    decreases a.len() - i,
{
    if i < a.len() && i < b.len() && a[i] == b[i] {
        lemma_name_lt_from_total(a, b, i + 1);
    }
}

/// No name comes before itself.
pub proof fn lemma_name_lt_irreflexive(a: Seq<u8>)
    ensures
        !name_lt(a, a),
{
    lemma_name_lt_from_irreflexive(a, 0);
}

/// The order on names is transitive.
pub proof fn lemma_name_lt_transitive(a: Seq<u8>, b: Seq<u8>, c: Seq<u8>)
    requires
        name_lt(a, b),
        name_lt(b, c),
    ensures
        name_lt(a, c),
{
    lemma_name_lt_from_transitive(a, b, c, 0);
}

/// Two different names are ordered one way or the other.
pub proof fn lemma_name_lt_total(a: Seq<u8>, b: Seq<u8>)
    ensures
        name_lt(a, b) || name_lt(b, a) || a == b,
{
    lemma_name_lt_from_total(a, b, 0);
}

/// No two names are each before the other.
pub proof fn lemma_name_lt_asymmetric(a: Seq<u8>, b: Seq<u8>)
    requires
        name_lt(a, b),
    ensures
        !name_lt(b, a),
{
    if name_lt(b, a) {
        lemma_name_lt_transitive(a, b, a);
        lemma_name_lt_irreflexive(a);
    }
}

/// The name of one directory entry.
#[derive(Debug, PartialEq, Eq, PartialOrd, Ord, Hash)]
pub struct Component {
    bytes: Vec<u8>,
}

impl Component {
    /// The bytes of the name.
    pub closed spec fn view(&self) -> Seq<u8> {
        self.bytes@
    }

    /// A name holding a copy of `s`.
    pub fn from_slice(s: &[u8]) -> (r: Self)
        ensures
            r@ == s@,
    {
        let mut bytes: Vec<u8> = Vec::new();
        let mut i: usize = 0;
        while i < s.len()
            invariant
                i <= s.len(),
                bytes@ == s@.subrange(0, i as int),
            decreases s.len() - i,
        {
            bytes.push(s[i]);
            i += 1;
        }
        Component { bytes }
    }

    /// The bytes of the name.
    pub fn as_bytes(&self) -> (r: &Vec<u8>)
        ensures
            r@ == self@,
    {
        &self.bytes
    }

    /// Whether the two names hold the same bytes.
    pub fn same(&self, other: &Component) -> (r: bool)
        ensures
            r == (self@ == other@),
    {
        if self.bytes.len() != other.bytes.len() {
            return false;
        }
        let mut i: usize = 0;
        while i < self.bytes.len()
            invariant
                i <= self.bytes.len(),
                self.bytes.len() == other.bytes.len(),
                forall|k: int| 0 <= k < i ==> self.bytes@[k] == other.bytes@[k],
            decreases self.bytes.len() - i,
        {
            if self.bytes[i] != other.bytes[i] {
                return false;
            }
            i += 1;
        }
        assert(self.bytes@ =~= other.bytes@);
        true
    }

    /// Whether this name comes strictly before `other`.
    pub fn lt(&self, other: &Component) -> (r: bool)
        ensures
            r == name_lt(self@, other@),
    {
        let mut i: usize = 0;
        loop
            invariant
                i <= self.bytes.len(),
                i <= other.bytes.len(),
                name_lt(self@, other@) == name_lt_from(self@, other@, i as int),
            decreases self.bytes.len() - i,
        {
            if i >= other.bytes.len() {
                return false;
            }
            if i >= self.bytes.len() {
                return true;
            }
            if self.bytes[i] != other.bytes[i] {
                return self.bytes[i] < other.bytes[i];
            }
            i += 1;
        }
    }
}

impl Clone for Component {
    fn clone(&self) -> (r: Self)
        ensures
            r@ == self@,
    {
        Component::from_slice(self.bytes.as_slice())
    }
}

/// The names of a list of components.
pub open spec fn names_of(parts: Seq<Component>) -> Seq<Seq<u8>> {
    Seq::new(parts.len(), |i: int| parts[i]@)
}

/// What one finished segment of a textual path does to the names gathered so
/// far: an empty segment and `.` change nothing, `..` drops the last name if
/// there is one, and anything else is a name of its own.
pub open spec fn step(names: Seq<Seq<u8>>, segment: Seq<u8>) -> Seq<Seq<u8>> {
    if segment.len() == 0 || segment == seq![DOT] {
        names
    } else if segment == seq![DOT, DOT] {
        if names.len() > 0 {
            names.drop_last()
        } else {
            names
        }
    } else {
        names.push(segment)
    }
}

/// The names gathered and the segment begun after reading the first `n` bytes
/// of `text`, starting from the names `base`.
pub open spec fn walk(base: Seq<Seq<u8>>, text: Seq<u8>, n: int) -> (Seq<Seq<u8>>, Seq<u8>)
    decreases n,
{
    if n <= 0 {
        (base, Seq::empty())
    } else {
        let (names, segment) = walk(base, text, n - 1);
        if text[n - 1] == SEPARATOR {
            (step(names, segment), Seq::empty())
        } else {
            (names, segment.push(text[n - 1]))
        }
    }
}

/// The path reached from `base` by following the textual path `text`.
pub open spec fn followed(base: Seq<Seq<u8>>, text: Seq<u8>) -> Seq<Seq<u8>> {
    let (names, segment) = walk(base, text, text.len() as int);
    step(names, segment)
}

/// Whether the textual path `text` starts at the root.
pub open spec fn is_absolute(text: Seq<u8>) -> bool {
    text.len() > 0 && text[0] == SEPARATOR
}

/// Where a rename of the entry at `old` to the textual target `target` leads:
/// an absolute target is followed from the root, a relative one from the
/// directory that holds `old`.
pub open spec fn concat(old: Seq<Seq<u8>>, target: Seq<u8>) -> Seq<Seq<u8>> {
    if is_absolute(target) {
        followed(Seq::empty(), target)
    } else if old.len() > 0 {
        followed(old.drop_last(), target)
    } else {
        followed(old, target)
    }
}

/// The textual form of the first `n` names of `names`, each after a separator.
pub open spec fn joined(names: Seq<Seq<u8>>, n: int) -> Seq<u8>
    decreases n,
{
    if n <= 0 {
        Seq::empty()
    } else {
        joined(names, n - 1).push(SEPARATOR) + names[n - 1]
    }
}

/// The textual form of a path: `/` for the root, else every name after a `/`.
pub open spec fn text_of(names: Seq<Seq<u8>>) -> Seq<u8> {
    if names.len() == 0 {
        seq![SEPARATOR]
    } else {
        joined(names, names.len() as int)
    }
}

/// An absolute path.
#[derive(Debug, PartialEq, Eq, PartialOrd, Ord, Hash)]
pub struct FsPath {
    parts: Vec<Component>,
}

impl FsPath {
    /// The names on the way from the root to the entry.
    pub closed spec fn view(&self) -> Seq<Seq<u8>> {
        names_of(self.parts@)
    }

    /// The root directory.
    pub fn root() -> (r: Self)
        ensures
            r@ == Seq::<Seq<u8>>::empty(),
    {
        FsPath { parts: Vec::new() }
    }

    /// How many names the path has.
    pub fn len(&self) -> (r: usize)
        ensures
            r == self@.len(),
    {
        self.parts.len()
    }

    /// The `i`-th name of the path.
    pub fn name(&self, i: usize) -> (r: &Component)
        requires
            i < self@.len(),
        ensures
            r@ == self@[i as int],
    {
        &self.parts[i]
    }

    /// Appends one name.
    pub fn push(&mut self, name: Component)
        ensures
            final(self)@ == old(self)@.push(name@),
    {
        self.parts.push(name);
    }

    /// Drops the last name. Returns `false`, and changes nothing, at the root.
    pub fn pop(&mut self) -> (r: bool)
        ensures
            r == (old(self)@.len() > 0),
            r ==> final(self)@ == old(self)@.drop_last(),
            !r ==> final(self)@ == old(self)@,
    {
        match self.parts.pop() {
            Some(_) => true,
            None => false,
        }
    }

    /// The path of the entry `name` in this directory.
    pub fn join(&self, name: &Component) -> (r: FsPath)
        ensures
            r@ == self@.push(name@),
    {
        let mut r = self.clone();
        r.push(name.clone());
        r
    }

    /// The directory that holds the entry, or `None` for the root.
    pub fn parent(&self) -> (r: Option<FsPath>)
        ensures
            match r {
                Some(p) => self@.len() > 0 && p@ == self@.drop_last(),
                None => self@.len() == 0,
            },
    {
        if self.parts.len() == 0 {
            None
        } else {
            let mut p = self.clone();
            p.pop();
            Some(p)
        }
    }

    /// The last name of the path, or `None` for the root.
    pub fn file_name(&self) -> (r: Option<&Component>)
        ensures
            match r {
                Some(n) => self@.len() > 0 && n@ == self@.last(),
                None => self@.len() == 0,
            },
    {
        if self.parts.len() == 0 {
            None
        } else {
            Some(&self.parts[self.parts.len() - 1])
        }
    }

    /// Whether the two paths hold the same names.
    pub fn same(&self, other: &FsPath) -> (r: bool)
        ensures
            r == (self@ == other@),
    {
        if self.parts.len() != other.parts.len() {
            assert(self@.len() != other@.len());
            return false;
        }
        let mut i: usize = 0;
        while i < self.parts.len()
            invariant
                i <= self.parts.len(),
                self.parts.len() == other.parts.len(),
                forall|k: int| 0 <= k < i ==> self@[k] == other@[k],
            decreases self.parts.len() - i,
        {
            if !self.parts[i].same(&other.parts[i]) {
                assert(self@[i as int] != other@[i as int]);
                return false;
            }
            i += 1;
        }
        assert(self@ =~= other@);
        true
    }

    /// Whether `base` names this path or a directory above it.
    pub fn starts_with(&self, base: &FsPath) -> (r: bool)
        ensures
            r == base@.is_prefix_of(self@),
    {
        if base.parts.len() > self.parts.len() {
            return false;
        }
        let mut i: usize = 0;
        while i < base.parts.len()
            invariant
                i <= base.parts.len(),
                base.parts.len() <= self.parts.len(),
                forall|k: int| 0 <= k < i ==> self@[k] == base@[k],
            decreases base.parts.len() - i,
        {
            if !self.parts[i].same(&base.parts[i]) {
                assert(self@.subrange(0, base@.len() as int)[i as int] != base@[i as int]);
                return false;
            }
            i += 1;
        }
        true
    }

    /// Whether this path comes strictly before `other`.
    pub fn lt(&self, other: &FsPath) -> (r: bool)
        ensures
            r == path_lt(self@, other@),
    {
        let mut i: usize = 0;
        loop
            invariant
                i <= self.parts.len(),
                i <= other.parts.len(),
                path_lt(self@, other@) == path_lt_from(self@, other@, i as int),
            decreases self.parts.len() - i,
        {
            if i >= other.parts.len() {
                return false;
            }
            if i >= self.parts.len() {
                return true;
            }
            if !self.parts[i].same(&other.parts[i]) {
                return self.parts[i].lt(&other.parts[i]);
            }
            i += 1;
        }
    }

    /// Takes one finished segment of a textual path into account.
    fn take_segment(&mut self, segment: &Vec<u8>)
        ensures
            final(self)@ == step(old(self)@, segment@),
    {
        let n = segment.len();
        if n == 0 {
            return;
        }
        if n == 1 && segment[0] == DOT {
            assert(segment@ =~= seq![DOT]);
            return;
        }
        if n == 2 && segment[0] == DOT && segment[1] == DOT {
            assert(segment@ =~= seq![DOT, DOT]);
            self.pop();
            return;
        }
        self.push(Component::from_slice(segment.as_slice()));
    }

    /// Follows the textual path `text` from this path on.
    fn follow(&mut self, text: &[u8])
        ensures
            final(self)@ == followed(old(self)@, text@),
    {
        let mut segment: Vec<u8> = Vec::new();
        let mut i: usize = 0;
        while i < text.len()
            invariant
                i <= text.len(),
                (self@, segment@) == walk(old(self)@, text@, i as int),
            decreases text.len() - i,
        {
            if text[i] == SEPARATOR {
                self.take_segment(&segment);
                segment = Vec::new();
            } else {
                segment.push(text[i]);
            }
            i += 1;
        }
        self.take_segment(&segment);
    }

    /// The path that the textual path `text` leads to when it is followed
    /// from the root, whether or not it starts there.
    pub fn from_root(text: &[u8]) -> (r: FsPath)
        ensures
            r@ == followed(Seq::empty(), text@),
    {
        let mut p = FsPath::root();
        p.follow(text);
        p
    }

    /// Reads an absolute path from its textual form, or returns `None` when
    /// the text does not start at the root.
    pub fn parse(text: &[u8]) -> (r: Option<FsPath>)
        ensures
            match r {
                Some(p) => is_absolute(text@) && p@ == followed(Seq::empty(), text@),
                None => !is_absolute(text@),
            },
    {
        if text.len() == 0 || text[0] != SEPARATOR {
            return None;
        }
        let mut p = FsPath::root();
        p.follow(text);
        Some(p)
    }

    /// The path that a rename of this entry to the textual target `target`
    /// asks for.
    pub fn resolve(&self, target: &[u8]) -> (r: FsPath)
        ensures
            r@ == concat(self@, target@),
    {
        if target.len() > 0 && target[0] == SEPARATOR {
            let mut p = FsPath::root();
            p.follow(target);
            p
        } else {
            let mut p = self.clone();
            p.pop();
            p.follow(target);
            p
        }
    }

    /// The textual form of the path.
    pub fn to_bytes(&self) -> (r: Vec<u8>)
        ensures
            r@ == text_of(self@),
    {
        let mut out: Vec<u8> = Vec::new();
        if self.parts.len() == 0 {
            out.push(SEPARATOR);
            return out;
        }
        let mut i: usize = 0;
        while i < self.parts.len()
            invariant
                i <= self.parts.len(),
                out@ == joined(self@, i as int),
            decreases self.parts.len() - i,
        {
            out.push(SEPARATOR);
            let name = self.parts[i].as_bytes();
            let mut k: usize = 0;
            while k < name.len()
                invariant
                    i < self.parts.len(),
                    k <= name.len(),
                    name@ == self@[i as int],
                    out@ == joined(self@, i as int).push(SEPARATOR) + name@.subrange(0, k as int),
                decreases name.len() - k,
            {
                out.push(name[k]);
                k += 1;
            }
            i += 1;
        }
        out
    }
}

impl Clone for FsPath {
    fn clone(&self) -> (r: Self)
        ensures
            r@ == self@,
    {
        let mut parts: Vec<Component> = Vec::new();
        let mut i: usize = 0;
        while i < self.parts.len()
            invariant
                i <= self.parts.len(),
                parts.len() == i,
                forall|k: int| 0 <= k < i ==> parts@[k]@ == self.parts@[k]@,
            decreases self.parts.len() - i,
        {
            parts.push(self.parts[i].clone());
            i += 1;
        }
        FsPath { parts }
    }
}

} // verus!
