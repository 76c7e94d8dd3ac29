//! A first-in, first-out work queue for deferred actions.

use vstd::prelude::*;

verus! {

/// A queue of scheduled items, served in the order they arrived.
pub struct Deque<T> {
    items: Vec<T>,
}

impl<T> Deque<T> {
    /// The queued items, oldest first.
    pub closed spec fn items(&self) -> Seq<T> {
        self.items@
    }

    pub fn new() -> (q: Deque<T>)
        ensures
            q.items() == Seq::<T>::empty(),
    {
        let q = Deque { items: Vec::new() };
        proof {
            assert(q.items() =~= Seq::<T>::empty());
        }
        q
    }

    /// Appends an item at the back of the queue.
    pub fn schedule(&mut self, item: T)
        ensures
            final(self).items() == old(self).items().push(item),
    {
        self.items.push(item);
    }

    /// Removes and returns the oldest item, or `None` on an empty queue.
    pub fn accept_one(&mut self) -> (r: Option<T>)
        ensures
            match r {
                Some(item) => {
                    &&& old(self).items().len() > 0
                    &&& item == old(self).items()[0]
                    &&& final(self).items() == old(self).items().subrange(
                        1,
                        old(self).items().len() as int,
                    )
                },
                None => {
                    &&& old(self).items().len() == 0
                    &&& final(self).items() == old(self).items()
                },
            },
    {
        if self.items.len() == 0 {
            None
        } else {
            Some(self.items.remove(0))
        }
    }
}

} // verus!
