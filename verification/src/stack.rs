//! A fixed-capacity last-in-first-out stack with slice-view access.

use crate::error::Error;
use vstd::prelude::*;

verus! {

/// A stack of at most `N` elements.
///
/// Its view is the sequence of elements, bottom first: the last element of
/// the view is the top of the stack.
pub struct Stack<T, const N: usize> {
    buf: Vec<T>,
}

impl<T, const N: usize> View for Stack<T, N> {
    type V = Seq<T>;

    closed spec fn view(&self) -> Seq<T> {
        self.buf@
    }
}

impl<T, const N: usize> Stack<T, N> {
    /// The stack never holds more than `N` elements.
    pub open spec fn wf(&self) -> bool {
        self@.len() <= N
    }

    /// Create an empty stack.
    pub fn new() -> (s: Self)
        ensures
            s@ == Seq::<T>::empty(),
            s.wf(),
    {
        Stack { buf: Vec::new() }
    }

    /// Push an element when there is room; answer `Full` otherwise.
    pub fn push(&mut self, item: T) -> (r: Result<(), Error>)
        requires
            old(self).wf(),
        ensures
            final(self).wf(),
            old(self)@.len() < N ==> r == Ok::<(), Error>(()) && final(self)@ == old(
                self,
            )@.push(item),
            old(self)@.len() == N ==> r == Err::<(), Error>(Error::Full) && final(self)@ == old(
                self,
            )@,
    {
        match self.is_full() {
            true => Err(Error::Full),
            false => {
                self.buf.push(item);
                Ok(())
            },
        }
    }

    /// Remove and return the top element, if any.
    pub fn pop(&mut self) -> (r: Option<T>)
        requires
            old(self).wf(),
        ensures
            final(self).wf(),
            old(self)@.len() == 0 ==> r is None && final(self)@ == old(self)@,
            old(self)@.len() > 0 ==> r == Some(old(self)@.last()) && final(self)@ == old(
                self,
            )@.drop_last(),
    {
        match self.is_empty() {
            true => None,
            false => self.buf.pop(),
        }
    }

    /// The top element, if any, without removing it.
    pub fn peek(&self) -> (r: Option<&T>)
        ensures
            self@.len() == 0 ==> r is None,
            self@.len() > 0 ==> (r matches Some(x) && *x == self@.last()),
    {
        match self.is_empty() {
            true => None,
            false => Some(&self.buf[self.buf.len() - 1]),
        }
    }

    /// The elements as a slice, bottom of the stack first.
    pub fn as_slice(&self) -> (r: &[T])
        ensures
            r@ == self@,
    {
        self.buf.as_slice()
    }

    /// The elements as a mutable slice, bottom of the stack first.
    pub fn as_mut_slice(&mut self) -> (r: &mut [T])
        ensures
            r@ == old(self)@,
            final(self)@ == final(r)@,
    {
        self.buf.as_mut_slice()
    }

    /// The fixed capacity.
    pub fn capacity(&self) -> (n: usize)
        ensures
            n == N,
    {
        N
    }

    /// How many elements are stacked.
    pub fn size(&self) -> (n: usize)
        ensures
            n == self@.len(),
    {
        self.buf.len()
    }

    /// Whether the stack holds `N` elements.
    pub fn is_full(&self) -> (b: bool)
        ensures
            b == (self@.len() == N),
    {
        self.buf.len() == N
    }

    /// Whether the stack holds no element.
    pub fn is_empty(&self) -> (b: bool)
        ensures
            b == (self@.len() == 0),
    {
        self.buf.len() == 0
    }
}

impl<T: Clone, const N: usize> Clone for Stack<T, N> {
    /// Clone the stack element by element: the clone holds as many elements,
    /// each a clone of the one at the same position.
    fn clone(&self) -> (s: Self)
        ensures
            s@.len() == self@.len(),
            forall|i: int|
                0 <= i < self@.len() ==> vstd::pervasive::cloned::<T>(self@[i], #[trigger] s@[i]),
    {
        Stack { buf: self.buf.clone() }
    }
}

} // verus!
