//! A sequence wrapper that is meant to always hold at least one element.
//!
//! The guarantee is stated by the well-formedness predicate [`NonEmpty::wf`]:
//! every constructor establishes it and every accessor preserves it, so code
//! that consumes a well-formed `NonEmpty` never has to branch on emptiness.

use vstd::prelude::*;
use vstd::pervasive::unreached;

verus! {

/// An owning sequence intended to hold at least one element.
///
/// Emptiness is not ruled out by the representation itself; it is ruled out
/// by the well-formedness predicate [`NonEmpty::wf`], which the checked
/// constructors establish and which the accessors require.
#[derive(Debug, PartialEq, Eq, Hash)]
pub struct NonEmpty<T> {
    /// The wrapped elements.  Construct through [`NonEmpty::try_new`],
    /// [`NonEmpty::new`] or [`NonEmpty::new_unchecked`] to keep [`NonEmpty::wf`].
    pub inner: Vec<T>,
}

impl<T> View for NonEmpty<T> {
    type V = Seq<T>;

    open spec fn view(&self) -> Seq<T> {
        self.inner@
    }
}

impl<T> NonEmpty<T> {
    /// The invariant every constructor establishes: the sequence holds at
    /// least one element.
    pub open spec fn wf(&self) -> bool {
        self@.len() >= 1
    }

    /// Wrap a single element as a one-element sequence.
    pub fn from_value(value: T) -> (r: NonEmpty<T>)
        ensures
            r@ == seq![value],
            r.wf(),
    {
        let mut inner: Vec<T> = Vec::new();
        inner.push(value);
        proof {
            assert(inner@ =~= seq![value]);
        }
        NonEmpty { inner }
    }

    /// Try to wrap a vector; an empty input is handed back unchanged.
    pub fn try_new(vec: Vec<T>) -> (r: Result<NonEmpty<T>, Vec<T>>)
        ensures
            match r {
                Ok(ne) => vec@.len() >= 1 && ne@ == vec@ && ne.wf(),
                Err(rejected) => vec@.len() == 0 && rejected@ == vec@,
            },
    {
        if vec.len() > 0 {
            Ok(NonEmpty { inner: vec })
        } else {
            Err(vec)
        }
    }

    /// Wrap a vector that the caller has already shown to be non-empty.
    pub fn new(vec: Vec<T>) -> (r: NonEmpty<T>)
        requires
            vec@.len() >= 1,
        ensures
            r@ == vec@,
            r.wf(),
    {
        NonEmpty { inner: vec }
    }

    /// Wrap a vector without any run-time check.  The caller carries the
    /// burden of the non-emptiness proof, exactly as with [`NonEmpty::new`].
    pub fn new_unchecked(vec: Vec<T>) -> (r: NonEmpty<T>)
        requires
            vec@.len() >= 1,
        ensures
            r@ == vec@,
            r.wf(),
    {
        NonEmpty { inner: vec }
    }

    /// The number of elements; at least one on a well-formed sequence.
    pub fn len(&self) -> (n: usize)
        ensures
            n == self@.len(),
    {
        self.inner.len()
    }

    /// Give up the wrapper and hand the elements back.
    pub fn into_vec(self) -> (r: Vec<T>)
        ensures
            r@ == self@,
    {
        self.inner
    }

    /// Borrow the elements as a slice.
    pub fn as_slice(&self) -> (r: &[T])
        ensures
            r@ == self@,
    {
        self.inner.as_slice()
    }

    /// Borrow the elements as a mutable slice.
    pub fn as_slice_mut(&mut self) -> (r: &mut [T])
        ensures
            r@ == old(self)@,
            final(self)@ == final(r)@,
    {
        self.inner.as_mut_slice()
    }

    /// Borrow the first element.
    pub fn first(&self) -> (r: &T)
        requires
            self.wf(),
        ensures
            *r == self@[0],
    {
        &self.inner[0]
    }

    /// Borrow the first element mutably.
    pub fn first_mut(&mut self) -> (r: &mut T)
        requires
            old(self).wf(),
        ensures
            *r == old(self)@[0],
            final(self)@ == old(self)@.update(0, *final(r)),
    {
        &mut self.inner[0]
    }

    /// Borrow the last element.
    pub fn last(&self) -> (r: &T)
        requires
            self.wf(),
        ensures
            *r == self@[self@.len() - 1],
    {
        let n = self.inner.len();
        &self.inner[n - 1]
    }

    /// Borrow the last element mutably.
    pub fn last_mut(&mut self) -> (r: &mut T)
        requires
            old(self).wf(),
        ensures
            *r == old(self)@[old(self)@.len() - 1],
            final(self)@ == old(self)@.update(old(self)@.len() - 1, *final(r)),
    {
        let n = self.inner.len();
        &mut self.inner[n - 1]
    }

    /// Split into the first element and the rest.
    pub fn split_first(&self) -> (r: (&T, &[T]))
        requires
            self.wf(),
        ensures
            *r.0 == self@[0],
            r.1@ == self@.subrange(1, self@.len() as int),
    {
        let s = self.inner.as_slice();
        (&s[0], &s[1..s.len()])
    }

    /// Split into the leading elements and the last one.
    pub fn split_last(&self) -> (r: (&T, &[T]))
        requires
            self.wf(),
        ensures
            *r.0 == self@[self@.len() - 1],
            r.1@ == self@.subrange(0, self@.len() - 1),
    {
        let s = self.inner.as_slice();
        let n = s.len();
        (&s[n - 1], &s[0..n - 1])
    }

    /// Split mutably into the first element and the rest.
    pub fn split_first_mut(&mut self) -> (r: (&mut T, &mut [T]))
        requires
            old(self).wf(),
        ensures
            *r.0 == old(self)@[0],
            r.1@ == old(self)@.subrange(1, old(self)@.len() as int),
            final(self)@ == seq![*final(r.0)] + final(r.1)@,
    {
        let s = self.inner.as_mut_slice();
        let (head, rest) = s.split_at_mut(1);
        proof {
            assert forall|x: T| #[trigger] head@.update(0, x) =~= seq![x] by {}
        }
        match head.first_mut() {
            Some(first) => (first, rest),
            None => unreached(),
        }
    }

    /// Split mutably into the leading elements and the last one.
    pub fn split_last_mut(&mut self) -> (r: (&mut T, &mut [T]))
        requires
            old(self).wf(),
        ensures
            *r.0 == old(self)@[old(self)@.len() - 1],
            r.1@ == old(self)@.subrange(0, old(self)@.len() - 1),
            final(self)@ == final(r.1)@ + seq![*final(r.0)],
    {
        let s = self.inner.as_mut_slice();
        let n = s.len();
        let (front, end) = s.split_at_mut(n - 1);
        proof {
            assert forall|x: T| #[trigger] end@.update(0, x) =~= seq![x] by {}
        }
        match end.first_mut() {
            Some(last) => (last, front),
            None => unreached(),
        }
    }
}

} // verus!
