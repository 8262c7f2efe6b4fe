//! A view over a contiguous region with a statically guaranteed minimum
//! length: a head of exactly `n` elements followed by a tail holding the
//! remainder.  Moving the boundary between head and tail only changes the
//! stored head length; the elements themselves never move.

use vstd::prelude::*;

verus! {

use vstd::slice::slice_index_get;
use vstd::slice::slice_subrange;
use vstd::slice::slice_to_vec;

/// Error returned by the checked constructors and by checked widening when
/// the region holds fewer elements than the operation requires.  It carries
/// no payload: its only information is its occurrence.
#[derive(Debug, PartialEq, Eq, Structural)]
pub struct NotEnoughEntries;

/// A region of elements with at least `n` of them guaranteed to exist.
///
/// The region is decomposed into a `head` of exactly `n` elements and a
/// `tail` holding the remainder, which may be empty.  `head + tail` is the
/// full region, in order, at all times; widening and narrowing move only the
/// stored boundary, never the elements.
#[derive(Debug)]
pub struct SliceN<T> {
    data: Vec<T>,
    n: usize,
}

impl<T> SliceN<T> {
    /// The full region, in order: head followed by tail.
    pub closed spec fn full(&self) -> Seq<T> {
        self.data@
    }

    /// The head: the first `n` elements of the region.
    pub closed spec fn head(&self) -> Seq<T> {
        self.data@.subrange(0, self.n as int)
    }

    /// The tail: everything after the head, possibly empty.
    pub closed spec fn tail(&self) -> Seq<T> {
        self.data@.subrange(self.n as int, self.data@.len() as int)
    }

    /// Well-formedness: the head never reaches past the end of the region.
    pub closed spec fn wf(&self) -> bool {
        self.n <= self.data@.len()
    }

    /// Take ownership of a region and view it with a head of `len` elements.
    /// Writes made through the view land in the region itself, which
    /// [`SliceN::into_vec`] gives back.  The caller must already know that
    /// the region is long enough; nothing is checked and nothing is copied
    /// or moved.
    pub fn from_unchecked_mut(region: Vec<T>, len: usize) -> (r: SliceN<T>)
        requires
            len <= region@.len(),
        ensures
            r.wf(),
            r.full() == region@,
            r.head() == region@.subrange(0, len as int),
            r.tail() == region@.subrange(len as int, region@.len() as int),
    {
        SliceN { data: region, n: len }
    }

    /// Give the underlying region back, with every mutation made through the
    /// view still in place.
    pub fn into_vec(self) -> (r: Vec<T>)
        ensures
            r@ == self.full(),
    {
        self.data
    }

    /// Take ownership of a region and view it with a head of `len`
    /// elements, checking the length first.  Succeeds exactly when the
    /// region holds at least `len` elements; on failure the region comes
    /// back unmodified beside the error.
    pub fn try_from_mut(region: Vec<T>, len: usize) -> (r: Result<
        SliceN<T>,
        (Vec<T>, NotEnoughEntries),
    >)
        ensures
            r is Ok <==> len <= region@.len(),
            r matches Ok(s) ==> s.wf() && s.full() == region@ && s.head() == region@.subrange(
                0,
                len as int,
            ) && s.tail() == region@.subrange(len as int, region@.len() as int),
            r matches Err(e) ==> e.0@ == region@,
    {
        if region.len() < len {
            Err((region, NotEnoughEntries))
        } else {
            Ok(Self::from_unchecked_mut(region, len))
        }
    }

    /// Copy a region into a view with a head of `len` elements.  The caller
    /// must already know that the region is long enough; nothing is checked.
    pub fn from_unchecked(region: &[T], len: usize) -> (r: SliceN<T>) where T: Copy
        requires
            len <= region@.len(),
        ensures
            r.wf(),
            r.full() == region@,
            r.head() == region@.subrange(0, len as int),
            r.tail() == region@.subrange(len as int, region@.len() as int),
    {
        SliceN { data: slice_to_vec(region), n: len }
    }

    /// Copy a region into a view with a head of `len` elements, checking the
    /// length first.  Succeeds exactly when the region holds at least `len`
    /// elements; the region itself is never modified.
    pub fn try_from(region: &[T], len: usize) -> (r: Result<SliceN<T>, NotEnoughEntries>) where
        T: Copy
        ensures
            r is Ok <==> len <= region@.len(),
            r matches Ok(s) ==> s.wf() && s.full() == region@ && s.head() == region@.subrange(
                0,
                len as int,
            ) && s.tail() == region@.subrange(len as int, region@.len() as int),
    {
        if region.len() < len {
            Err(NotEnoughEntries)
        } else {
            Ok(Self::from_unchecked(region, len))
        }
    }

    /// Number of elements in the full region: head length plus tail length.
    pub fn len(&self) -> (r: usize)
        ensures
            r == self.full().len(),
    {
        self.data.len()
    }

    /// Number of elements in the head.
    pub fn head_len(&self) -> (r: usize)
        requires
            self.wf(),
        ensures
            r == self.head().len(),
    {
        self.n
    }

    /// Number of elements in the tail.
    pub fn tail_len(&self) -> (r: usize)
        requires
            self.wf(),
        ensures
            r == self.tail().len(),
    {
        self.data.len() - self.n
    }

    /// Move the first `m` elements of the tail into the head, in place.  The
    /// caller must already know that the tail is long enough; nothing is
    /// checked.  Only the stored boundary changes; no element moves.
    pub fn increase_unchecked_mut(&mut self, m: usize)
        requires
            old(self).wf(),
            m <= old(self).tail().len(),
        ensures
            final(self).wf(),
            final(self).full() == old(self).full(),
            final(self).head() == old(self).head() + old(self).tail().subrange(0, m as int),
            final(self).tail() == old(self).tail().subrange(
                m as int,
                old(self).tail().len() as int,
            ),
    {
        proof {
            assert(self.data.len() == self.data@.len());
        }
        self.n = self.n + m;
        proof {
            assert(self.head() =~= old(self).head() + old(self).tail().subrange(0, m as int));
            assert(self.tail() =~= old(self).tail().subrange(
                m as int,
                old(self).tail().len() as int,
            ));
        }
    }

    /// Move the first `m` elements of the tail into the head, in place,
    /// checking the tail length first.  Succeeds exactly when the tail holds
    /// at least `m` elements; on failure the view is unchanged.
    pub fn increase_mut(&mut self, m: usize) -> (r: Result<(), NotEnoughEntries>)
        requires
            old(self).wf(),
        ensures
            final(self).wf(),
            final(self).full() == old(self).full(),
            r is Ok <==> m <= old(self).tail().len(),
            r is Ok ==> final(self).head() == old(self).head() + old(self).tail().subrange(
                0,
                m as int,
            ) && final(self).tail() == old(self).tail().subrange(
                m as int,
                old(self).tail().len() as int,
            ),
            r is Err ==> final(self).head() == old(self).head() && final(self).tail() == old(
                self).tail(),
    {
        if self.tail_len() < m {
            Err(NotEnoughEntries)
        } else {
            self.increase_unchecked_mut(m);
            Ok(())
        }
    }

    /// A copy of this view with the first `m` elements of the tail moved
    /// into the head.  The caller must already know that the tail is long
    /// enough; nothing is checked.
    pub fn increase_unchecked(&self, m: usize) -> (r: SliceN<T>) where T: Copy
        requires
            self.wf(),
            m <= self.tail().len(),
        ensures
            r.wf(),
            r.full() == self.full(),
            r.head() == self.head() + self.tail().subrange(0, m as int),
            r.tail() == self.tail().subrange(m as int, self.tail().len() as int),
    {
        proof {
            assert(self.data.len() == self.data@.len());
        }
        let r = SliceN { data: slice_to_vec(self.data.as_slice()), n: self.n + m };
        proof {
            assert(r.head() =~= self.head() + self.tail().subrange(0, m as int));
            assert(r.tail() =~= self.tail().subrange(m as int, self.tail().len() as int));
        }
        r
    }

    /// A copy of this view with the first `m` elements of the tail moved
    /// into the head, checking the tail length first.  Succeeds exactly when
    /// the tail holds at least `m` elements.
    pub fn increase(&self, m: usize) -> (r: Result<SliceN<T>, NotEnoughEntries>) where T: Copy
        requires
            self.wf(),
        ensures
            r is Ok <==> m <= self.tail().len(),
            r matches Ok(s) ==> s.wf() && s.full() == self.full() && s.head() == self.head()
                + self.tail().subrange(0, m as int) && s.tail() == self.tail().subrange(
                m as int,
                self.tail().len() as int,
            ),
    {
        if self.tail_len() < m {
            Err(NotEnoughEntries)
        } else {
            Ok(self.increase_unchecked(m))
        }
    }

    /// Shrink the head to its first `m` elements, in place; the elements cut
    /// off become the front of the tail.  `m` may not exceed the head
    /// length, so this never fails.  Only the stored boundary changes.
    pub fn downsize_mut(&mut self, m: usize)
        requires
            old(self).wf(),
            m <= old(self).head().len(),
        ensures
            final(self).wf(),
            final(self).full() == old(self).full(),
            final(self).head() == old(self).head().subrange(0, m as int),
            final(self).tail() == old(self).head().subrange(
                m as int,
                old(self).head().len() as int,
            ) + old(self).tail(),
    {
        self.n = m;
        proof {
            assert(self.head() =~= old(self).head().subrange(0, m as int));
            assert(self.tail() =~= old(self).head().subrange(
                m as int,
                old(self).head().len() as int,
            ) + old(self).tail());
        }
    }

    /// A copy of this view with the head shrunk to its first `m` elements;
    /// the elements cut off become the front of the tail.  `m` may not
    /// exceed the head length, so this never fails.
    pub fn downsize(&self, m: usize) -> (r: SliceN<T>) where T: Copy
        requires
            self.wf(),
            m <= self.head().len(),
        ensures
            r.wf(),
            r.full() == self.full(),
            r.head() == self.head().subrange(0, m as int),
            r.tail() == self.head().subrange(m as int, self.head().len() as int) + self.tail(),
    {
        let r = SliceN { data: slice_to_vec(self.data.as_slice()), n: m };
        proof {
            assert(r.head() =~= self.head().subrange(0, m as int));
            assert(r.tail() =~= self.head().subrange(m as int, self.head().len() as int)
                + self.tail());
        }
        r
    }

    /// The full region as one contiguous slice: head followed by tail, with
    /// the boundary as it stands now.
    pub fn as_slice(&self) -> (r: &[T])
        ensures
            r@ == self.full(),
    {
        self.data.as_slice()
    }

    /// A copy of the head.
    pub fn head_vec(&self) -> (r: Vec<T>) where T: Copy
        requires
            self.wf(),
        ensures
            r@ == self.head(),
    {
        slice_to_vec(slice_subrange(self.data.as_slice(), 0, self.n))
    }

    /// A copy of the tail.
    pub fn tail_vec(&self) -> (r: Vec<T>) where T: Copy
        requires
            self.wf(),
        ensures
            r@ == self.tail(),
    {
        slice_to_vec(slice_subrange(self.data.as_slice(), self.n, self.data.len()))
    }

    /// The element at position `i` of the head.
    pub fn head_at(&self, i: usize) -> (r: &T)
        requires
            self.wf(),
            i < self.head().len(),
        ensures
            *r == self.head()[i as int],
    {
        slice_index_get(self.data.as_slice(), i)
    }

    /// The element at position `i` of the tail.
    pub fn tail_at(&self, i: usize) -> (r: &T)
        requires
            self.wf(),
            i < self.tail().len(),
        ensures
            *r == self.tail()[i as int],
    {
        proof {
            assert(self.data.len() == self.data@.len());
        }
        slice_index_get(self.data.as_slice(), self.n + i)
    }

    /// The element at position `i` of the full region.
    pub fn at(&self, i: usize) -> (r: &T)
        requires
            i < self.full().len(),
        ensures
            *r == self.full()[i as int],
    {
        slice_index_get(self.data.as_slice(), i)
    }

    /// Write `value` at position `i` of the head.  The write lands in the
    /// underlying region itself, so it shows through the full-region view
    /// and in the region that [`SliceN::into_vec`] gives back.
    pub fn set_head_at(&mut self, i: usize, value: T)
        requires
            old(self).wf(),
            i < old(self).head().len(),
        ensures
            final(self).wf(),
            final(self).head() == old(self).head().update(i as int, value),
            final(self).tail() == old(self).tail(),
            final(self).full() == old(self).full().update(i as int, value),
    {
        self.data.set(i, value);
        proof {
            assert(self.head() =~= old(self).head().update(i as int, value));
            assert(self.tail() =~= old(self).tail());
        }
    }

    /// Write `value` at position `i` of the tail.  The write lands in the
    /// underlying region itself, so it shows through the full-region view
    /// and in the region that [`SliceN::into_vec`] gives back.
    pub fn set_tail_at(&mut self, i: usize, value: T)
        requires
            old(self).wf(),
            i < old(self).tail().len(),
        ensures
            final(self).wf(),
            final(self).head() == old(self).head(),
            final(self).tail() == old(self).tail().update(i as int, value),
            final(self).full() == old(self).full().update(old(self).head().len() + i, value),
    {
        proof {
            assert(self.data.len() == self.data@.len());
        }
        self.data.set(self.n + i, value);
        proof {
            assert(self.head() =~= old(self).head());
            assert(self.tail() =~= old(self).tail().update(i as int, value));
        }
    }

    /// Write `value` at position `i` of the full region, on whichever side
    /// of the boundary `i` falls.
    pub fn set_at(&mut self, i: usize, value: T)
        requires
            old(self).wf(),
            i < old(self).full().len(),
        ensures
            final(self).wf(),
            final(self).full() == old(self).full().update(i as int, value),
            i < old(self).head().len() ==> final(self).head() == old(self).head().update(
                i as int,
                value,
            ) && final(self).tail() == old(self).tail(),
            i >= old(self).head().len() ==> final(self).head() == old(self).head() && final(
                self).tail() == old(self).tail().update(i - old(self).head().len(), value),
    {
        self.data.set(i, value);
        proof {
            if i < old(self).head().len() {
                assert(self.head() =~= old(self).head().update(i as int, value));
                assert(self.tail() =~= old(self).tail());
            } else {
                assert(self.head() =~= old(self).head());
                assert(self.tail() =~= old(self).tail().update(
                    i - old(self).head().len(),
                    value,
                ));
            }
        }
    }

    /// Overwrite the whole head with `values`, which must have exactly the
    /// head's length.  The tail is untouched, and the writes land in the
    /// underlying region itself.
    pub fn set_head(&mut self, values: &[T]) where T: Copy
        requires
            old(self).wf(),
            values@.len() == old(self).head().len(),
        ensures
            final(self).wf(),
            final(self).head() == values@,
            final(self).tail() == old(self).tail(),
            final(self).full() == values@ + old(self).tail(),
    {
        let mut i: usize = 0;
        while i < values.len()
            invariant
                self.wf(),
                self.n == old(self).n,
                self.data@.len() == old(self).data@.len(),
                values@.len() == self.n,
                i <= values@.len(),
                forall|j: int| 0 <= j < i ==> self.data@[j] == values@[j],
                forall|j: int| i <= j < self.data@.len() ==> self.data@[j] == old(self).data@[j],
            decreases values@.len() - i,
        {
            let value = *slice_index_get(values, i);
            self.data.set(i, value);
            i = i + 1;
        }
        proof {
            assert(self.head() =~= values@);
            assert(self.tail() =~= old(self).tail());
            assert(self.full() =~= values@ + old(self).tail());
        }
    }
}

/// Law: the head and the tail, in that order, always make up exactly the
/// full region, so the total length is the head length plus the tail length.
pub proof fn lemma_head_tail_full<T>(s: &SliceN<T>)
    requires
        s.wf(),
    ensures
        s.head() + s.tail() == s.full(),
        s.head().len() + s.tail().len() == s.full().len(),
{
    assert(s.head() + s.tail() =~= s.full());
}

} // verus!
