//! Reshaping of owned element sequences and length-bounded views over them.
//!
//! Two independent components share only a common domain:
//!
//! - [`ArrayExt`] reshapes owned sequences: it splits one sequence into two,
//!   truncates it, and joins two sequences into one.
//! - [`SliceN`] is a view over a contiguous region that is guaranteed to hold
//!   at least `n` elements, decomposed into a head of exactly `n` elements and
//!   a tail holding the remainder.  The boundary between head and tail can be
//!   moved without touching the elements themselves.

use vstd::prelude::*;

mod slice;

pub use slice::NotEnoughEntries;
pub use slice::SliceN;

verus! {

/// Operations that reshape an owned sequence of elements.
///
/// Every size constraint is a precondition, so none of these operations has a
/// runtime error path: a call is accepted only where the constraint is proved.
pub trait ArrayExt<T>: Sized {
    /// The elements held, as a mathematical sequence.
    spec fn contents(&self) -> Seq<T>;

    /// Split a sequence into two smaller sequences: the first `m` elements
    /// and the remaining ones.  Every element of the input moves into exactly
    /// one of the two outputs.
    fn array_split_at(self, m: usize) -> (r: (Self, Self))
        requires
            m <= self.contents().len(),
        ensures
            r.0.contents() == self.contents().subrange(0, m as int),
            r.1.contents() == self.contents().subrange(m as int, self.contents().len() as int),
    ;

    /// Take only the first `m` elements of the sequence.  This is the first
    /// half of [`ArrayExt::array_split_at`], with the second half discarded.
    fn truncate(self, m: usize) -> (r: Self)
        requires
            m <= self.contents().len(),
        ensures
            r.contents() == self.contents().subrange(0, m as int),
    ;

    /// Join two sequences into one larger sequence holding the elements of
    /// `self` followed by the elements of `other`.  Both inputs are consumed;
    /// the result is fresh contiguous storage, never an alias of the inputs.
    fn append(self, other: Self) -> (r: Self)
        ensures
            r.contents() == self.contents() + other.contents(),
    ;
}

impl<T> ArrayExt<T> for Vec<T> {
    open spec fn contents(&self) -> Seq<T> {
        self@
    }

    fn array_split_at(self, m: usize) -> (r: (Self, Self)) {
        let mut left = self;
        let right = left.split_off(m);
        (left, right)
    }

    fn truncate(self, m: usize) -> (r: Self) {
        self.array_split_at(m).0
    }

    fn append(self, other: Self) -> (r: Self) {
        let mut joined = self;
        let mut rest = other;
        Vec::append(&mut joined, &mut rest);
        joined
    }
}

/// Law: splitting a sequence at any admissible point and joining the two
/// parts again restores the original sequence, element for element.
pub proof fn lemma_split_append_round_trip<T>(s: Seq<T>, m: int)
    requires
        0 <= m <= s.len(),
    ensures
        s.subrange(0, m) + s.subrange(m, s.len() as int) == s,
{
    assert(s.subrange(0, m) + s.subrange(m, s.len() as int) =~= s);
}

} // verus!
