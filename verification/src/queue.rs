//! The bounded queue that connects the worker pools, as a value: a push on a
//! full queue does not complete — it hands the item back — and a pop frees a
//! slot. The suspension of a producer until a slot frees is the runtime
//! shell's affair; this type decides which pushes complete.

use vstd::prelude::*;

verus! {

/// What a push does: the item joins the back of the queue where there is
/// room; on a full queue nothing happens.
pub open spec fn spec_push<T>(q: Seq<T>, cap: nat, x: T) -> Option<Seq<T>> {
    if q.len() < cap {
        Some(q.push(x))
    } else {
        None
    }
}

/// Pushing a whole sequence, in order: `None` as soon as one push is refused.
pub open spec fn spec_fill<T>(q: Seq<T>, cap: nat, xs: Seq<T>) -> Option<Seq<T>>
    decreases xs.len(),
{
    if xs.len() == 0 {
        Some(q)
    } else {
        match spec_fill(q, cap, xs.drop_last()) {
            Some(q1) => spec_push(q1, cap, xs.last()),
            None => None,
        }
    }
}

/// Filling within the capacity completes and appends in order.
proof fn lemma_fill_within_capacity<T>(q: Seq<T>, cap: nat, xs: Seq<T>)
    requires
        q.len() + xs.len() <= cap,
    ensures
        spec_fill(q, cap, xs) == Some(q + xs),
    decreases xs.len(),
{
    if xs.len() == 0 {
        assert(q + xs =~= q);
    } else {
        lemma_fill_within_capacity(q, cap, xs.drop_last());
        assert((q + xs.drop_last()).push(xs.last()) =~= q + xs);
    }
}

/// Backpressure law: a queue of capacity K accepts K pushes from empty and
/// holds them in order; the (K+1)-th push does not complete; and once one
/// item is popped, that push completes.
pub proof fn lemma_backpressure<T>(cap: nat, xs: Seq<T>, y: T)
    requires
        cap >= 1,
        xs.len() == cap,
    ensures
        spec_fill(Seq::<T>::empty(), cap, xs) == Some(xs),
        spec_push(xs, cap, y) is None,
        spec_push(xs.drop_first(), cap, y) matches Some(q) && q == xs.drop_first().push(y),
{
    lemma_fill_within_capacity(Seq::<T>::empty(), cap, xs);
    assert(Seq::<T>::empty() + xs =~= xs);
}

/// A first-in-first-out queue that holds at most `capacity` items. Its view
/// is the sequence of queued items, front first.
pub struct BoundedQueue<T> {
    cap: usize,
    items: Vec<T>,
}

impl<T> View for BoundedQueue<T> {
    type V = Seq<T>;

    closed spec fn view(&self) -> Seq<T> {
        self.items@
    }
}

impl<T> BoundedQueue<T> {
    /// The most items the queue ever holds.
    pub closed spec fn capacity(&self) -> usize {
        self.cap
    }

    /// The queue never holds more than its capacity, and the capacity is at
    /// least one.
    pub closed spec fn wf(&self) -> bool {
        self.items@.len() <= self.cap && self.cap >= 1
    }

    /// An empty queue. A capacity of zero is a configuration fault and is
    /// rejected at the caller.
    pub fn new(capacity: usize) -> (r: Self)
        requires
            capacity >= 1,
        ensures
            r.wf(),
            r.capacity() == capacity,
            r@ == Seq::<T>::empty(),
    {
        BoundedQueue { cap: capacity, items: Vec::new() }
    }

    /// How many items are queued.
    pub fn len(&self) -> (r: usize)
        ensures
            r == self@.len(),
    {
        self.items.len()
    }

    /// Push to the back: the item joins the queue where there is room and the
    /// push completes; on a full queue the push does not complete and the
    /// item comes back to the caller.
    pub fn try_push(&mut self, x: T) -> (r: Result<(), T>)
        requires
            old(self).wf(),
        ensures
            final(self).wf(),
            final(self).capacity() == old(self).capacity(),
            match spec_push(old(self)@, old(self).capacity() as nat, x) {
                Some(q) => r is Ok && final(self)@ == q,
                None => r matches Err(b) && b == x && final(self)@ == old(self)@,
            },
    {
        if self.items.len() < self.cap {
            self.items.push(x);
            Ok(())
        } else {
            Err(x)
        }
    }

    /// Pop the front item; an empty queue yields nothing.
    pub fn pop(&mut self) -> (r: Option<T>)
        requires
            old(self).wf(),
        ensures
            final(self).wf(),
            final(self).capacity() == old(self).capacity(),
            old(self)@.len() == 0 ==> r is None && final(self)@ == old(self)@,
            old(self)@.len() > 0 ==> (r matches Some(x) && x == old(self)@[0] && final(self)@
                == old(self)@.drop_first()),
    {
        if self.items.len() == 0 {
            None
        } else {
            let x = self.items.remove(0);
            proof {
                assert(self.items@ =~= old(self)@.drop_first());
            }
            Some(x)
        }
    }
}

} // verus!
