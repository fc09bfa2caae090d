//! Linear collections built on a double-ended queue.

use vstd::prelude::*;
use std::collections::VecDeque;

verus! {

/// What `append` leaves in a queue that holds `items` and may hold `capacity` items:
/// `item` goes to the back and, when the queue was full, the front item leaves.
pub open spec fn appended<T>(items: Seq<T>, capacity: nat, item: T) -> Seq<T> {
    if items.len() >= capacity {
        items.drop_first().push(item)
    } else {
        items.push(item)
    }
}

/// What a queue that holds `items` holds after appending each of `more` in turn.
pub open spec fn appended_all<T>(items: Seq<T>, capacity: nat, more: Seq<T>) -> Seq<T>
    decreases more.len(),
{
    if more.len() == 0 {
        items
    } else {
        appended(appended_all(items, capacity, more.drop_last()), capacity, more.last())
    }
}

/// A queue with a fixed capacity: appending to a full queue evicts the oldest item.
#[derive(Debug, Clone, PartialEq, Eq, Hash)]
pub struct CappedQueue<T> {
    deque: VecDeque<T>,
    capacity: usize,
}

impl<T> View for CappedQueue<T> {
    type V = Seq<T>;

    /// The items, oldest first.
    closed spec fn view(&self) -> Seq<T> {
        self.deque@
    }
}

impl<T> CappedQueue<T> {
    /// The capacity, as a mathematical value.
    pub closed spec fn spec_capacity(&self) -> usize {
        self.capacity
    }

    /// The capacity is positive and never exceeded.
    pub closed spec fn wf(&self) -> bool {
        0 < self.capacity && self.deque@.len() <= self.capacity
    }

    /// Creates an empty queue with the given capacity.
    pub fn new(capacity: usize) -> (q: Self)
        requires
            capacity > 0,
        ensures
            q.wf(),
            q@ == Seq::<T>::empty(),
            q.spec_capacity() == capacity,
            q@.len() <= q.spec_capacity(),
    {
        CappedQueue { deque: VecDeque::with_capacity(capacity), capacity }
    }

    /// The capacity.
    pub fn capacity(&self) -> (c: usize)
        ensures
            c == self.spec_capacity(),
    {
        self.capacity
    }

    /// Appends an item; when the queue is full, removes and returns the oldest item.
    pub fn append(&mut self, i: T) -> (evicted: Option<T>)
        requires
            old(self).wf(),
        ensures
            final(self).wf(),
            final(self).spec_capacity() == old(self).spec_capacity(),
            0 < final(self).spec_capacity(),
            final(self)@.len() <= final(self).spec_capacity(),
            final(self)@ == appended(old(self)@, old(self).spec_capacity() as nat, i),
            evicted == (if old(self)@.len() == old(self).spec_capacity() {
                Some(old(self)@[0])
            } else {
                None::<T>
            }),
    {
        let to_remove = if self.deque.len() == self.capacity {
            self.deque.pop_front()
        } else {
            None
        };
        self.deque.push_back(i);
        to_remove
    }

    /// Removes and returns the oldest item.
    pub fn pop_front(&mut self) -> (r: Option<T>)
        requires
            old(self).wf(),
        ensures
            final(self).wf(),
            final(self).spec_capacity() == old(self).spec_capacity(),
            0 < final(self).spec_capacity(),
            final(self)@.len() <= final(self).spec_capacity(),
            r == (if old(self)@.len() > 0 { Some(old(self)@[0]) } else { None::<T> }),
            final(self)@ == (if old(self)@.len() > 0 { old(self)@.drop_first() } else { old(self)@ }),
    {
        self.deque.pop_front()
    }

    /// Consumes the queue and returns its items, oldest first.
    pub fn into_queue(self) -> (q: VecDeque<T>)
        ensures
            q@ == self@,
    {
        self.deque
    }
}

impl<T> core::ops::Deref for CappedQueue<T> {
    type Target = VecDeque<T>;

    fn deref(&self) -> (q: &VecDeque<T>)
        ensures
            q@ == self@,
    {
        &self.deque
    }
}

impl<T> AsRef<VecDeque<T>> for CappedQueue<T> {
    fn as_ref(&self) -> (q: &VecDeque<T>)
        ensures
            q@ == self@,
    {
        &self.deque
    }
}

impl<T> From<CappedQueue<T>> for VecDeque<T> {
    fn from(queue: CappedQueue<T>) -> (q: VecDeque<T>)
        ensures
            q@ == queue@,
    {
        queue.deque
    }
}

impl<T> vstd::std_specs::convert::FromSpecImpl<CappedQueue<T>> for VecDeque<T> {
    open spec fn obeys_from_spec() -> bool {
        true
    }

    closed spec fn from_spec(queue: CappedQueue<T>) -> VecDeque<T> {
        queue.deque
    }
}

/// A queue never holds more than its capacity: appending to a queue within its
/// capacity leaves it within its capacity.
pub proof fn law_append_stays_within_capacity<T>(items: Seq<T>, capacity: nat, item: T)
    requires
        0 < capacity,
        items.len() <= capacity,
    ensures
        appended(items, capacity, item).len() <= capacity,
        appended(items, capacity, item).last() == item,
{
}

/// The last `capacity` items of `s`, or all of them when there are fewer.
pub open spec fn newest<T>(s: Seq<T>, capacity: nat) -> Seq<T> {
    if s.len() <= capacity {
        s
    } else {
        s.skip(s.len() - capacity)
    }
}

/// Appending keeps the newest items: after appending `more` to a queue within its
/// capacity, the queue holds the last `capacity` items of its old items followed by
/// `more`, in order.
pub proof fn law_append_keeps_newest<T>(items: Seq<T>, capacity: nat, more: Seq<T>)
    requires
        0 < capacity,
        items.len() <= capacity,
    ensures
        appended_all(items, capacity, more) == newest(items + more, capacity),
    decreases more.len(),
{
    let all = items + more;
    if more.len() == 0 {
        assert(all =~= items);
    } else {
        let prefix = more.drop_last();
        law_append_keeps_newest(items, capacity, prefix);
        let before = appended_all(items, capacity, prefix);
        let all_before = items + prefix;
        assert(all =~= all_before.push(more.last()));
        if all_before.len() >= capacity {
            assert(appended(before, capacity, more.last()) =~= newest(all, capacity));
        } else {
            assert(appended(before, capacity, more.last()) =~= newest(all, capacity));
        }
    }
}

} // verus!
