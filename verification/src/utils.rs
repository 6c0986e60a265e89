use vstd::prelude::*;

verus! {

/// A source position: the half-open byte interval `[start, end)` of an input
/// line, written `Loc(start, end)`. Spans are carried for diagnostics only
/// and never influence what an expression means.
#[derive(Debug, Clone, Copy, PartialEq, Eq, Hash)]
pub struct Loc(pub usize, pub usize);

impl Loc {
    /// A span is well formed when it does not end before it starts.
    pub open spec fn wf(self) -> bool {
        self.0 <= self.1
    }

    /// The smallest span covering both `a` and `b`.
    pub open spec fn spec_merge(self, other: Loc) -> Loc {
        Loc(
            if self.0 <= other.0 {
                self.0
            } else {
                other.0
            },
            if self.1 >= other.1 {
                self.1
            } else {
                other.1
            },
        )
    }

    /// The smallest span covering both `self` and `other`.
    pub fn merge(&self, other: &Loc) -> (r: Loc)
        ensures
            r == self.spec_merge(*other),
    {
        Loc(
            if self.0 <= other.0 {
                self.0
            } else {
                other.0
            },
            if self.1 >= other.1 {
                self.1
            } else {
                other.1
            },
        )
    }
}

/// Merging well-formed spans yields a well-formed span that covers both.
pub proof fn lemma_merge_covers(a: Loc, b: Loc)
    requires
        a.wf(),
        b.wf(),
    ensures
        a.spec_merge(b).wf(),
        a.spec_merge(b).0 <= a.0 && a.1 <= a.spec_merge(b).1,
        a.spec_merge(b).0 <= b.0 && b.1 <= a.spec_merge(b).1,
{
}

/// The merge is the smallest covering span: any span covering both `a` and
/// `b` covers their merge.
pub proof fn lemma_merge_smallest(a: Loc, b: Loc, c: Loc)
    requires
        c.0 <= a.0 && a.1 <= c.1,
        c.0 <= b.0 && b.1 <= c.1,
    ensures
        c.0 <= a.spec_merge(b).0 && a.spec_merge(b).1 <= c.1,
{
}

/// A value of type `T` annotated with the span of input it came from.
/// Tokens, operators and syntax-tree nodes are all `Annot` values.
#[derive(Debug, Clone, Copy, PartialEq, Eq, Hash)]
pub struct Annot<T> {
    pub value: T,
    pub loc: Loc,
}

impl<T> Annot<T> {
    /// Pairs `value` with the span `loc`.
    pub fn new(value: T, loc: Loc) -> (r: Self)
        ensures
            r.value == value,
            r.loc == loc,
    {
        Annot { value, loc }
    }
}

} // verus!
