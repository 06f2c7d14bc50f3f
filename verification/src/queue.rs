//! A fixed-capacity single-producer circular queue.

use crate::error::Error;
use vstd::prelude::*;

verus! {

/// A first-in-first-out queue of at most `N` elements.
///
/// Its view is the sequence of queued elements, oldest first.  `push`
/// rejects an element when the queue is full; `push_overwrite` evicts the
/// oldest element instead and hands it back.
pub struct Queue<T, const N: usize> {
    buf: Vec<T>,
}

impl<T, const N: usize> View for Queue<T, N> {
    type V = Seq<T>;

    closed spec fn view(&self) -> Seq<T> {
        self.buf@
    }
}

impl<T, const N: usize> Queue<T, N> {
    /// The queue never holds more than `N` elements.
    pub open spec fn wf(&self) -> bool {
        self@.len() <= N
    }

    /// Create an empty queue.
    pub fn new() -> (q: Self)
        ensures
            q@ == Seq::<T>::empty(),
            q.wf(),
    {
        Queue { buf: Vec::new() }
    }

    /// Append an element when there is room; answer `Full` otherwise.
    pub fn push(&mut self, item: T) -> (r: Result<(), Error>)
        requires
            old(self).wf(),
        ensures
            final(self).wf(),
            old(self)@.len() < N ==> r == Ok::<(), Error>(()) && final(self)@ == old(
                self,
            )@.push(item),
            old(self)@.len() == N ==> r == Err::<(), Error>(Error::Full) && final(self)@ == old(
                self,
            )@,
    {
        match self.is_full() {
            true => Err(Error::Full),
            false => {
                let evicted = self.push_overwrite(item);
                proof {
                    assert(evicted is None);
                }
                Ok(())
            },
        }
    }

    /// Append an element; when the queue is full, evict the oldest element
    /// first and hand it back.
    pub fn push_overwrite(&mut self, item: T) -> (r: Option<T>)
        requires
            old(self).wf(),
            N >= 1,
        ensures
            final(self).wf(),
            old(self)@.len() < N ==> r is None && final(self)@ == old(self)@.push(item),
            old(self)@.len() == N ==> r == Some(old(self)@[0]) && final(self)@ == old(
                self,
            )@.drop_first().push(item),
    {
        let mut ret: Option<T> = None;
        if self.is_full() {
            ret = Some(self.buf.remove(0));
            proof {
                assert(self.buf@ =~= old(self)@.drop_first());
            }
        }
        self.buf.push(item);
        ret
    }

    /// Remove and return the oldest element, if any.
    pub fn pop(&mut self) -> (r: Option<T>)
        requires
            old(self).wf(),
        ensures
            final(self).wf(),
            old(self)@.len() == 0 ==> r is None && final(self)@ == old(self)@,
            old(self)@.len() > 0 ==> r == Some(old(self)@[0]) && final(self)@ == old(
                self,
            )@.drop_first(),
    {
        if self.is_empty() {
            None
        } else {
            let v = self.buf.remove(0);
            proof {
                assert(self.buf@ =~= old(self)@.drop_first());
            }
            Some(v)
        }
    }

    /// The oldest element, if any, without removing it.
    pub fn peek(&self) -> (r: Option<&T>)
        ensures
            self@.len() == 0 ==> r is None,
            self@.len() > 0 ==> (r matches Some(x) && *x == self@[0]),
    {
        match self.is_empty() {
            true => None,
            false => Some(&self.buf[0]),
        }
    }

    /// The fixed capacity.
    pub fn capacity(&self) -> (n: usize)
        ensures
            n == N,
    {
        N
    }

    /// How many elements are queued.
    pub fn size(&self) -> (n: usize)
        ensures
            n == self@.len(),
    {
        self.buf.len()
    }

    /// Whether the queue holds `N` elements.
    pub fn is_full(&self) -> (b: bool)
        ensures
            b == (self@.len() == N),
    {
        self.buf.len() == N
    }

    /// Whether the queue holds no element.
    pub fn is_empty(&self) -> (b: bool)
        ensures
            b == (self@.len() == 0),
    {
        self.buf.len() == 0
    }
}

impl<T: Clone, const N: usize> Clone for Queue<T, N> {
    /// Clone the queue element by element: the clone holds as many elements,
    /// each a clone of the one at the same position.
    fn clone(&self) -> (q: Self)
        ensures
            q@.len() == self@.len(),
            forall|i: int|
                0 <= i < self@.len() ==> vstd::pervasive::cloned::<T>(self@[i], #[trigger] q@[i]),
    {
        Queue { buf: self.buf.clone() }
    }
}

} // verus!
