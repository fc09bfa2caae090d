//! The state of an object pool: the objects ready to be handed out and the capacity,
//! with one method per step that the pool takes.

use vstd::prelude::*;

verus! {

/// Makes `n` fresh objects with `factory`, in order.
pub fn make_fresh<T, F: Fn() -> T>(n: usize, factory: &F) -> (v: Vec<T>)
    requires
        factory.requires(()),
    ensures
        v@.len() == n,
        forall|i: int| 0 <= i < n ==> factory.ensures((), #[trigger] v@[i]),
{
    let mut v: Vec<T> = Vec::with_capacity(n);
    for _i in 0..n
        invariant
            factory.requires(()),
            v@.len() == _i,
            forall|j: int| 0 <= j < _i ==> factory.ensures((), #[trigger] v@[j]),
    {
        v.push(factory());
    }
    v
}

/// How many of `n` objects offered to a pool that holds `len` objects and keeps at most
/// `cap` it takes in.
pub open spec fn room(len: nat, cap: nat, n: nat) -> nat {
    if len >= cap {
        0
    } else if n <= cap - len {
        n
    } else {
        (cap - len) as nat
    }
}

/// The objects a pool holds ready to be handed out, and its capacity.
pub struct PoolState<T> {
    /// Objects sitting in the pool, ready to be handed out; the last one goes first.
    available: Vec<T>,
    /// Number of objects the pool keeps at most.
    capacity: usize,
}

impl<T> PoolState<T> {
    /// The objects ready to be handed out, in the order they were put back.
    pub closed spec fn items(&self) -> Seq<T> {
        self.available@
    }

    /// The capacity.
    pub closed spec fn cap(&self) -> nat {
        self.capacity as nat
    }

    /// A pool never holds more objects than its capacity.
    pub open spec fn wf(&self) -> bool {
        self.items().len() <= self.cap()
    }

    /// Makes a pool of capacity `initial` that holds `initial` fresh objects.
    pub fn filled<F: Fn() -> T>(initial: usize, factory: &F) -> (s: Self)
        requires
            factory.requires(()),
        ensures
            s.wf(),
            s.cap() == initial,
            s.items().len() == initial,
            forall|i: int| 0 <= i < initial ==> factory.ensures((), #[trigger] s.items()[i]),
    {
        PoolState { available: make_fresh(initial, factory), capacity: initial }
    }

    /// Number of objects ready to be handed out.
    pub fn available(&self) -> (n: usize)
        ensures
            n == self.items().len(),
    {
        self.available.len()
    }

    /// The capacity.
    pub fn capacity(&self) -> (c: usize)
        ensures
            c == self.cap(),
    {
        self.capacity
    }

    /// Takes out the object put back last, if there is one.
    pub fn take_one(&mut self) -> (r: Option<T>)
        ensures
            final(self).cap() == old(self).cap(),
            old(self).wf() ==> final(self).wf(),
            old(self).items().len() > 0 ==> r == Some(old(self).items().last())
                && final(self).items() == old(self).items().drop_last(),
            old(self).items().len() == 0 ==> r is None && final(self).items() == old(self).items(),
    {
        self.available.pop()
    }

    /// Takes out the object put back last or, when the pool is empty, makes a fresh one
    /// with `factory`.
    pub fn take_or_make<F: Fn() -> T>(&mut self, factory: &F) -> (r: T)
        requires
            factory.requires(()),
        ensures
            final(self).cap() == old(self).cap(),
            old(self).wf() ==> final(self).wf(),
            old(self).items().len() > 0 ==> r == old(self).items().last()
                && final(self).items() == old(self).items().drop_last(),
            old(self).items().len() == 0 ==> factory.ensures((), r)
                && final(self).items() == old(self).items(),
    {
        match self.take_one() {
            Some(item) => item,
            None => factory(),
        }
    }

    /// Puts `item` back when the pool holds fewer objects than its capacity; otherwise
    /// hands it back to the caller, to be dropped.
    pub fn put_back(&mut self, item: T) -> (rejected: Option<T>)
        ensures
            final(self).cap() == old(self).cap(),
            old(self).wf() ==> final(self).wf(),
            old(self).items().len() < old(self).cap() ==> rejected is None
                && final(self).items() == old(self).items().push(item),
            old(self).items().len() >= old(self).cap() ==> rejected == Some(item)
                && final(self).items() == old(self).items(),
    {
        if self.available.len() < self.capacity {
            self.available.push(item);
            None
        } else {
            Some(item)
        }
    }

    /// Puts back the objects of `fresh`, in order, as long as the pool has room; the
    /// others are dropped.
    pub fn refill(&mut self, fresh: Vec<T>)
        ensures
            final(self).cap() == old(self).cap(),
            old(self).wf() ==> final(self).wf(),
            final(self).items() == old(self).items() + fresh@.take(
                room(old(self).items().len(), old(self).cap(), fresh@.len()) as int,
            ),
    {
        let ghost start = self.available@;
        let ghost all = fresh@;
        let ghost r = room(start.len(), self.capacity as nat, all.len()) as int;
        for item in it: fresh.into_iter()
            invariant
                self.capacity == old(self).capacity,
                it.seq() == all,
                r == room(start.len(), self.capacity as nat, all.len()) as int,
                0 <= it.index() <= all.len(),
                self.available@ == start + all.take(if it.index() < r { it.index() } else { r }),
        {
            let ghost idx = it.index();
            assert(item == all[idx]);
            proof {
                if idx < r {
                    assert(self.available@.len() == start.len() + idx);
                    assert(self.available@.len() < self.capacity);
                } else {
                    assert(self.available@.len() == start.len() + r);
                    assert(self.available@.len() >= self.capacity);
                }
            }
            let _rejected = self.put_back(item);
            proof {
                if idx < r {
                    assert(all.take(idx + 1) =~= all.take(idx).push(all[idx]));
                }
            }
            assert(self.available@ =~= start + all.take(if idx + 1 < r { idx + 1 } else { r }));
        }
    }

    /// Drops every object the pool holds; the capacity stays.
    pub fn clear(&mut self)
        ensures
            final(self).cap() == old(self).cap(),
            final(self).items() == Seq::<T>::empty(),
    {
        self.available = Vec::new();
    }

    /// Sets the capacity to `new_size` and drops the surplus objects, the newest first.
    pub fn set_capacity(&mut self, new_size: usize)
        ensures
            final(self).wf(),
            final(self).cap() == new_size,
            new_size <= old(self).items().len() ==> final(self).items() == old(self).items().take(
                new_size as int,
            ),
            new_size > old(self).items().len() ==> final(self).items() == old(self).items(),
    {
        self.capacity = new_size;
        while self.available.len() > new_size
            invariant
                self.capacity == new_size,
                self.available@.len() >= new_size || self.available@.len() == old(self).available@.len(),
                self.available@.len() <= old(self).available@.len(),
                self.available@ == old(self).available@.take(self.available@.len() as int),
            decreases self.available@.len(),
        {
            self.available.pop();
            assert(self.available@ =~= old(self).available@.take(self.available@.len() as int));
        }
        assert(old(self).available@.take(old(self).available@.len() as int) =~= old(self).available@);
    }

    /// Sets the capacity to `new_size` and makes the pool hold exactly `new_size`
    /// objects: surplus objects are dropped, the newest first, and missing ones are
    /// made by `factory`.
    pub fn resize<F: Fn() -> T>(&mut self, new_size: usize, factory: &F)
        requires
            factory.requires(()),
        ensures
            final(self).wf(),
            final(self).cap() == new_size,
            final(self).items().len() == new_size,
            new_size <= old(self).items().len() ==> final(self).items() == old(self).items().take(
                new_size as int,
            ),
            new_size > old(self).items().len() ==> final(self).items().take(
                old(self).items().len() as int,
            ) == old(self).items(),
            forall|i: int|
                old(self).items().len() <= i < new_size ==> factory.ensures(
                    (),
                    #[trigger] final(self).items()[i],
                ),
    {
        self.set_capacity(new_size);
        let ghost kept = self.available@;
        let missing = new_size - self.available();
        let fresh = make_fresh(missing, factory);
        self.refill(fresh);
        assert(self.available@.take(kept.len() as int) =~= kept);
    }
}

/// An object taken out of a pool within its capacity and put back leaves the pool as
/// it was: taking made room for it.
pub proof fn law_take_then_put_back<T>(items: Seq<T>, capacity: nat)
    requires
        0 < items.len() <= capacity,
    ensures
        items.drop_last().len() < capacity,
        items.drop_last().push(items.last()) == items,
{
    assert(items.drop_last().push(items.last()) =~= items);
}

} // verus!
