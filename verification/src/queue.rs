//! The deduplicating FIFO work queue of strips: adding a strip that is
//! already queued is a no-op, and popping returns the oldest entry.

use vstd::prelude::*;
use crate::strip::Strip;

verus! {

pub struct Queue {
    pub items: Vec<Strip>,
}

impl Queue {
    pub fn new() -> (q: Queue)
        ensures
            q.items@.len() == 0,
    {
        Queue { items: Vec::new() }
    }

    pub fn len(&self) -> (n: usize)
        ensures
            n == self.items@.len(),
    {
        self.items.len()
    }

    /// Enqueue `t` unless it is already queued.
    pub fn add(&mut self, t: Strip)
        ensures
            old(self).items@.contains(t) ==> final(self).items@ == old(self).items@,
            !old(self).items@.contains(t) ==> final(self).items@ == old(self).items@.push(t),
    {
        let mut k: usize = 0;
        while k < self.items.len()
            invariant
                k <= self.items@.len(),
                *self == *old(self),
                forall|m: int| 0 <= m < k ==> self.items@[m] != t,
            decreases self.items@.len() - k,
        {
            if self.items[k] == t {
                proof {
                    assert(old(self).items@.contains(t));
                }
                return ;
            }
            k += 1;
        }
        proof {
            if old(self).items@.contains(t) {
                let m = choose|m: int|
                    0 <= m < old(self).items@.len() && old(self).items@[m] == t;
                assert(false);
            }
        }
        self.items.push(t);
    }

    /// Dequeue the oldest entry, or nothing when the queue is empty.
    pub fn pop(&mut self) -> (r: Option<Strip>)
        ensures
            match r {
                Option::None => old(self).items@.len() == 0 && final(self).items@ == old(
                    self,
                ).items@,
                Option::Some(t) => {
                    &&& old(self).items@.len() > 0
                    &&& t == old(self).items@[0]
                    &&& final(self).items@ == old(self).items@.subrange(
                        1,
                        old(self).items@.len() as int,
                    )
                },
            },
    {
        if self.items.len() == 0 {
            return Option::None;
        }
        let t = self.items.remove(0);
        Option::Some(t)
    }
}

} // verus!
