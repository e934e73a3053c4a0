//! A first-in first-out queue that may grow while it is being drained.

use std::collections::VecDeque;
use vstd::prelude::*;

verus! {

/// A queue that can be extended while iterating over it.
#[derive(Debug, Clone)]
pub struct ExtendableQueue<T> {
    queue: VecDeque<T>,
}

/// A deque holding `items`, the first in front.
fn deque_of<T>(items: Vec<T>) -> (r: VecDeque<T>)
    ensures
        r@ == items@,
{
    let ghost orig = items@;
    let mut items = items;
    let mut d: VecDeque<T> = VecDeque::new();
    assert(d@ =~= orig.subrange(orig.len() as int, orig.len() as int));
    assert(items@ =~= orig.subrange(0, orig.len() as int));
    while items.len() > 0
        invariant
            items@.len() <= orig.len(),
            items@ == orig.subrange(0, items@.len() as int),
            d@ == orig.subrange(items@.len() as int, orig.len() as int),
        decreases items.len(),
    {
        let n = items.len();
        match items.pop() {
            Some(x) => {
                d.push_front(x);
                assert(d@ =~= orig.subrange(n - 1, orig.len() as int));
                assert(items@ =~= orig.subrange(0, n - 1));
            },
            None => {},
        }
    }
    assert(d@ =~= orig);
    d
}

impl<T> View for ExtendableQueue<T> {
    type V = Seq<T>;

    closed spec fn view(&self) -> Seq<T> {
        self.queue@
    }
}

impl<T> Default for ExtendableQueue<T> {
    fn default() -> (r: Self)
        ensures
            r@ == Seq::<T>::empty(),
    {
        ExtendableQueue { queue: VecDeque::new() }
    }
}

impl<T> ExtendableQueue<T> {
    /// An empty queue.
    pub fn new() -> (r: Self)
        ensures
            r@ == Seq::<T>::empty(),
    {
        ExtendableQueue { queue: VecDeque::new() }
    }

    /// A queue holding `items`, the first in front.
    pub fn from_vec(items: Vec<T>) -> (r: Self)
        ensures
            r@ == items@,
    {
        ExtendableQueue { queue: deque_of(items) }
    }

    /// Add an element to the back of the queue.
    pub fn push(&mut self, value: T)
        ensures
            final(self)@ == old(self)@.push(value),
    {
        self.queue.push_back(value);
    }

    /// Add the elements of `items` to the back of the queue, in order.
    pub fn extend(&mut self, items: Vec<T>)
        ensures
            final(self)@ == old(self)@ + items@,
    {
        let mut d = deque_of(items);
        self.queue.append(&mut d);
    }

    /// Clear the queue.
    pub fn clear(&mut self)
        ensures
            final(self)@ == Seq::<T>::empty(),
    {
        self.queue.clear();
    }

    /// Get the length of the queue.
    pub fn len(&self) -> (r: usize)
        ensures
            r == self@.len(),
    {
        self.queue.len()
    }

    /// Check if the queue is empty.
    pub fn is_empty(&self) -> (r: bool)
        ensures
            r == (self@.len() == 0),
    {
        self.queue.len() == 0
    }

    /// Get and remove the front element.
    pub fn pop_front(&mut self) -> (r: Option<T>)
        ensures
            old(self)@.len() == 0 ==> r is None && final(self)@ == old(self)@,
            old(self)@.len() > 0 ==> r == Some(old(self)@[0]) && final(self)@ == old(self)@.drop_first(),
    {
        let r = self.queue.pop_front();
        proof {
            if old(self)@.len() > 0 {
                assert(self.queue@ =~= old(self)@.drop_first());
            }
        }
        r
    }

    /// Get and remove the front element; the same as `pop_front`.
    pub fn next(&mut self) -> (r: Option<T>)
        ensures
            old(self)@.len() == 0 ==> r is None && final(self)@ == old(self)@,
            old(self)@.len() > 0 ==> r == Some(old(self)@[0]) && final(self)@ == old(self)@.drop_first(),
    {
        self.pop_front()
    }

    /// The elements, front first, leaving the queue empty.
    pub fn take_all(&mut self) -> (r: Vec<T>)
        ensures
            r@ == old(self)@,
            final(self)@ == Seq::<T>::empty(),
    {
        let ghost orig = self.queue@;
        let mut out: Vec<T> = Vec::new();
        while self.queue.len() > 0
            invariant
                out@ + self.queue@ == orig,
            decreases self.queue@.len(),
        {
            let ghost before = self.queue@;
            match self.queue.pop_front() {
                Some(x) => {
                    out.push(x);
                    assert(out@ + self.queue@ =~= orig) by {
                        assert(before =~= seq![x] + self.queue@);
                    }
                },
                None => {},
            }
        }
        assert(out@ =~= orig);
        out
    }
}

} // verus!
