//! File-system paths as sequences of components, with the operations the
//! engine needs: parent, prefix stripping, extension by a name, and the
//! component-wise order.

use crate::order::{
    agree_before, lemma_lex_skip_prefix, lemma_lex_strict_total, lex_lt, strict_total, Rel,
};
use crate::text::{lemma_text_order_total, text_lt, text_rel};
use vstd::prelude::*;

verus! {

/// One component of a path.
#[derive(Clone, Debug, PartialEq, Eq)]
pub enum Component {
    /// A volume or drive prefix.
    Prefix(String),
    /// The root directory.
    RootDir,
    /// A reference to the current directory.
    CurDir,
    /// A reference to the parent directory.
    ParentDir,
    /// An ordinary file or directory name.
    Normal(String),
}

/// The mathematical value of a [`Component`].
pub enum Segment {
    Prefix(Seq<char>),
    RootDir,
    CurDir,
    ParentDir,
    Normal(Seq<char>),
}

impl View for Component {
    type V = Segment;

    open spec fn view(&self) -> Segment {
        match *self {
            Component::Prefix(s) => Segment::Prefix(s@),
            Component::RootDir => Segment::RootDir,
            Component::CurDir => Segment::CurDir,
            Component::ParentDir => Segment::ParentDir,
            Component::Normal(s) => Segment::Normal(s@),
        }
    }
}

/// The kinds of component in ascending order: a prefix comes before the
/// root, the root before `.`, `.` before `..`, and `..` before any name.
pub open spec fn rank(s: Segment) -> int {
    match s {
        Segment::Prefix(_) => 0,
        Segment::RootDir => 1,
        Segment::CurDir => 2,
        Segment::ParentDir => 3,
        Segment::Normal(_) => 4,
    }
}

/// The text that a component carries, empty where it carries none.
pub open spec fn label(s: Segment) -> Seq<char> {
    match s {
        Segment::Prefix(t) => t,
        Segment::Normal(t) => t,
        _ => Seq::empty(),
    }
}

/// Components are ordered by kind, and within a kind by their text.
pub open spec fn segment_lt(x: Segment, y: Segment) -> bool {
    rank(x) < rank(y) || (rank(x) == rank(y) && text_lt(label(x), label(y)))
}

/// The order of components as a relation.
pub open spec fn segment_order() -> spec_fn(Segment, Segment) -> bool {
    |x: Segment, y: Segment| segment_lt(x, y)
}

/// `a` comes strictly before `b`: the paths are compared component by
/// component, and a proper prefix comes first.
pub open spec fn path_lt(a: Seq<Segment>, b: Seq<Segment>) -> bool {
    lex_lt(a, b, segment_order())
}

/// `a` comes before `b` or equals it.
pub open spec fn path_le(a: Seq<Segment>, b: Seq<Segment>) -> bool {
    a == b || path_lt(a, b)
}

/// The order of paths is a strict total order.
pub proof fn lemma_path_order_total()
    ensures
        strict_total(segment_order()),
        forall|a: Seq<Segment>| !#[trigger] path_lt(a, a),
        forall|a: Seq<Segment>, b: Seq<Segment>|
            a != b ==> #[trigger] path_lt(a, b) || path_lt(b, a),
        forall|a: Seq<Segment>, b: Seq<Segment>, c: Seq<Segment>| #[trigger]
            path_lt(a, b) && #[trigger] path_lt(b, c) ==> path_lt(a, c),
{
    lemma_text_order_total();
    assert forall|x: Segment, y: Segment| x != y implies #[trigger] segment_lt(x, y) || segment_lt(
        y,
        x,
    ) by {
        if rank(x) == rank(y) {
            assert(label(x) != label(y));
        }
    }
    assert(strict_total(segment_order()));
    lemma_lex_strict_total(segment_order());
}

/// `base` is a leading part of `p`, taken component by component.
pub open spec fn is_prefix_of(base: Seq<Segment>, p: Seq<Segment>) -> bool {
    base.len() <= p.len() && p.subrange(0, base.len() as int) == base
}

/// The name of `p`'s last component, where that is an ordinary name.
pub open spec fn leaf_name(p: Seq<Segment>) -> Option<Seq<char>> {
    if p.len() > 0 && p.last() is Normal {
        Some(label(p.last()))
    } else {
        None
    }
}

/// The path without its last component. A path that is empty, or ends in the
/// root or in a prefix, has no parent.
pub open spec fn parent_of(p: Seq<Segment>) -> Option<Seq<Segment>> {
    if p.len() == 0 || p.last() is RootDir || p.last() is Prefix {
        None
    } else {
        Some(p.drop_last())
    }
}

/// A path: its components from the outermost to the innermost.
#[derive(Clone, Debug, PartialEq, Eq)]
pub struct FsPath {
    pub components: Vec<Component>,
}

impl View for FsPath {
    type V = Seq<Segment>;

    open spec fn view(&self) -> Seq<Segment> {
        Seq::new(self.components@.len(), |i: int| self.components@[i]@)
    }
}

impl Component {
    /// A copy of this component.
    pub fn duplicate(&self) -> (c: Component)
        ensures
            c@ == self@,
    {
        match self {
            Component::Prefix(s) => Component::Prefix(s.clone()),
            Component::RootDir => Component::RootDir,
            Component::CurDir => Component::CurDir,
            Component::ParentDir => Component::ParentDir,
            Component::Normal(s) => Component::Normal(s.clone()),
        }
    }

    /// Compares two components by kind, then by text.
    pub fn rel(&self, other: &Component) -> (r: Rel)
        ensures
            r is Less <==> segment_lt(self@, other@),
            r is Same <==> self@ == other@,
            r is Greater <==> segment_lt(other@, self@),
    {
        proof {
            lemma_text_order_total();
        }
        match (self, other) {
            (Component::Prefix(a), Component::Prefix(b)) => text_rel(a.as_str(), b.as_str()),
            (Component::Prefix(_), _) => Rel::Less,
            (Component::RootDir, Component::Prefix(_)) => Rel::Greater,
            (Component::RootDir, Component::RootDir) => Rel::Same,
            (Component::RootDir, _) => Rel::Less,
            (Component::CurDir, Component::Prefix(_)) => Rel::Greater,
            (Component::CurDir, Component::RootDir) => Rel::Greater,
            (Component::CurDir, Component::CurDir) => Rel::Same,
            (Component::CurDir, _) => Rel::Less,
            (Component::ParentDir, Component::ParentDir) => Rel::Same,
            (Component::ParentDir, Component::Normal(_)) => Rel::Less,
            (Component::ParentDir, _) => Rel::Greater,
            (Component::Normal(a), Component::Normal(b)) => text_rel(a.as_str(), b.as_str()),
            (Component::Normal(_), _) => Rel::Greater,
        }
    }
}

impl FsPath {
    /// The path made of `components`.
    pub fn new(components: Vec<Component>) -> (p: FsPath)
        ensures
            p.components == components,
    {
        FsPath { components }
    }

    /// A copy of the first `n` components.
    pub fn prefix(&self, n: usize) -> (p: FsPath)
        requires
            n <= self@.len(),
        ensures
            p@ == self@.subrange(0, n as int),
    {
        let mut out: Vec<Component> = Vec::new();
        let mut i: usize = 0;
        while i < n
            invariant
                n <= self.components.len(),
                i <= n,
                out.len() == i,
                forall|j: int| 0 <= j < i ==> out[j]@ == self.components[j]@,
            decreases n - i,
        {
            out.push(self.components[i].duplicate());
            i = i + 1;
        }
        let p = FsPath { components: out };
        assert(p@ =~= self@.subrange(0, n as int));
        p
    }

    /// A copy of the components from position `n` on.
    pub fn suffix(&self, n: usize) -> (p: FsPath)
        requires
            n <= self@.len(),
        ensures
            p@ == self@.subrange(n as int, self@.len() as int),
    {
        let mut out: Vec<Component> = Vec::new();
        let mut i: usize = n;
        while i < self.components.len()
            invariant
                n <= i <= self.components.len(),
                out.len() == i - n,
                forall|j: int| 0 <= j < i - n ==> out[j]@ == self.components[n + j]@,
            decreases self.components.len() - i,
        {
            out.push(self.components[i].duplicate());
            i = i + 1;
        }
        let p = FsPath { components: out };
        assert(p@ =~= self@.subrange(n as int, self@.len() as int));
        p
    }

    /// A copy of this path.
    pub fn duplicate(&self) -> (p: FsPath)
        ensures
            p@ == self@,
    {
        let p = self.prefix(self.components.len());
        assert(self@.subrange(0, self@.len() as int) =~= self@);
        p
    }

    /// The number of components.
    pub fn len(&self) -> (n: usize)
        ensures
            n == self@.len(),
    {
        self.components.len()
    }

    /// The name of the last component, where that is an ordinary name.
    pub fn file_name(&self) -> (name: Option<&str>)
        ensures
            match name {
                Some(s) => leaf_name(self@) == Some(s@),
                None => leaf_name(self@) is None,
            },
    {
        let n: usize = self.components.len();
        if n == 0 {
            return None;
        }
        match &self.components[n - 1] {
            Component::Normal(s) => Some(s.as_str()),
            _ => None,
        }
    }

    /// The path without its last component, where it has a parent.
    pub fn parent(&self) -> (p: Option<FsPath>)
        ensures
            match p {
                Some(q) => parent_of(self@) == Some(q@),
                None => parent_of(self@) is None,
            },
    {
        let n: usize = self.components.len();
        if n == 0 {
            return None;
        }
        match &self.components[n - 1] {
            Component::RootDir => None,
            Component::Prefix(_) => None,
            _ => {
                let q = self.prefix(n - 1);
                assert(self@.drop_last() =~= self@.subrange(0, n - 1));
                Some(q)
            },
        }
    }

    /// This path extended by one ordinary name.
    pub fn child(&self, name: &str) -> (p: FsPath)
        ensures
            p@ == self@.push(Segment::Normal(name@)),
    {
        let mut q = self.duplicate();
        q.components.push(Component::Normal(String::from_str(name)));
        assert(q@ =~= self@.push(Segment::Normal(name@)));
        q
    }

    /// Three-way comparison of two paths, component by component.
    pub fn rel(&self, other: &FsPath) -> (r: Rel)
        ensures
            r is Less <==> path_lt(self@, other@),
            r is Same <==> self@ == other@,
            r is Greater <==> path_lt(other@, self@),
    {
        let mut i: usize = 0;
        proof {
            lemma_path_order_total();
        }
        while i < self.components.len() && i < other.components.len()
            invariant
                agree_before(self@, other@, i as int),
                agree_before(other@, self@, i as int),
            decreases self.components.len() - i,
        {
            let r = self.components[i].rel(&other.components[i]);
            match r {
                Rel::Same => {},
                _ => {
                    proof {
                        lemma_lex_skip_prefix(self@, other@, i as int, segment_order());
                        lemma_lex_skip_prefix(other@, self@, i as int, segment_order());
                    }
                    return r;
                },
            }
            i = i + 1;
        }
        proof {
            lemma_lex_skip_prefix(self@, other@, i as int, segment_order());
            lemma_lex_skip_prefix(other@, self@, i as int, segment_order());
        }
        if i < other.components.len() {
            Rel::Less
        } else if i < self.components.len() {
            Rel::Greater
        } else {
            assert(self@ =~= other@);
            Rel::Same
        }
    }

    /// Tells whether two paths have the same components.
    pub fn same(&self, other: &FsPath) -> (b: bool)
        ensures
            b == (self@ == other@),
    {
        match self.rel(other) {
            Rel::Same => true,
            _ => false,
        }
    }

    /// Tells whether `base` is a leading part of this path.
    pub fn starts_with(&self, base: &FsPath) -> (b: bool)
        ensures
            b == is_prefix_of(base@, self@),
    {
        let n: usize = base.components.len();
        if n > self.components.len() {
            return false;
        }
        let mut i: usize = 0;
        while i < n
            invariant
                n == base.components.len(),
                n <= self.components.len(),
                i <= n,
                forall|j: int| 0 <= j < i ==> self@[j] == base@[j],
            decreases n - i,
        {
            match self.components[i].rel(&base.components[i]) {
                Rel::Same => {},
                _ => {
                    assert(self@.subrange(0, n as int)[i as int] == self@[i as int]);
                    return false;
                },
            }
            i = i + 1;
        }
        assert(self@.subrange(0, n as int) =~= base@);
        true
    }

    /// The rest of this path after the leading part `base`, where `base` is
    /// one.
    pub fn strip_prefix(&self, base: &FsPath) -> (rest: Option<FsPath>)
        ensures
            match rest {
                Some(r) => is_prefix_of(base@, self@) && r@ == self@.subrange(
                    base@.len() as int,
                    self@.len() as int,
                ),
                None => !is_prefix_of(base@, self@),
            },
    {
        if self.starts_with(base) {
            Some(self.suffix(base.components.len()))
        } else {
            None
        }
    }
}

} // verus!
