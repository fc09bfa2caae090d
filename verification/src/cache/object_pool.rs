//! A generic object cache (object pool).
//!
//! Objects are made up front when the cache is built. [`Cache::acquire`] hands one out
//! inside a [`CacheGuard`]; [`CacheGuard::release`] puts the object back into the pool
//! so that it can be reused, unless the pool already holds as many objects as its
//! capacity, in which case the object is dropped. The pool can be resized at runtime
//! with [`Cache::resize`].
//!
//! The pool is shared between the clones of a cache and their guards, behind a lock.
//! [`PoolState`] is what the lock protects, and its methods carry the exact contracts
//! of each step; each method of [`Cache`] runs one of those steps under the lock.

use vstd::prelude::*;
use vstd::rwlock::{RwLock, RwLockPredicate};
use std::sync::Arc;

pub use crate::cache::pool_state::{law_take_then_put_back, make_fresh, room, PoolState};

verus! {

/// The lock's invariant: the protected pool never holds more objects than its capacity.
struct PoolInvariant;

impl<T> RwLockPredicate<PoolState<T>> for PoolInvariant {
    open spec fn inv(self, v: PoolState<T>) -> bool {
        v.wf()
    }
}

/// What the clones of a cache and their guards share.
#[verifier::reject_recursive_types(T)]
struct Shared<T, F: Fn() -> T> {
    pool: RwLock<PoolState<T>, PoolInvariant>,
    factory: F,
}

impl<T, F: Fn() -> T> Shared<T, F> {
    #[verifier::type_invariant]
    spec fn shared_inv(self) -> bool {
        self.factory.requires(())
    }

    /// Puts `item` back into the pool, or drops it when the pool is full.
    fn give_back(&self, item: T) {
        let (mut state, handle) = self.pool.acquire_write();
        let _rejected = state.put_back(item);
        handle.release_write(state);
    }
}

/// A generic object cache. Clones share one pool.
///
/// The pool's objects live as long as the pool: call
/// [`discard_available`](Cache::discard_available) to drop them before the last handle
/// goes.
#[verifier::reject_recursive_types(T)]
pub struct Cache<T, F: Fn() -> T> {
    inner: Arc<Shared<T, F>>,
}

impl<T, F: Fn() -> T> Cache<T, F> {
    /// `self` and `other` are handles to one pool.
    pub closed spec fn same_pool(&self, other: &Self) -> bool {
        self.inner == other.inner
    }

    /// The factory that makes the cache's fresh objects.
    pub closed spec fn factory(&self) -> F {
        self.inner.factory
    }

    /// Creates a cache whose pool holds `initial` objects made by `factory` and keeps
    /// at most `initial` objects; `factory` makes the cache's fresh objects from then
    /// on.
    pub fn new(initial: usize, factory: F) -> (c: Self)
        requires
            factory.requires(()),
        ensures
            c.factory() == factory,
    {
        let state = PoolState::filled(initial, &factory);
        let pool = RwLock::new(state, Ghost(PoolInvariant));
        Cache { inner: Arc::new(Shared { pool, factory }) }
    }

    /// Acquires an object: the one put back last, or, when the pool is empty, a fresh
    /// one made by the factory. [`CacheGuard::release`] gives it back.
    pub fn acquire(&self) -> (g: CacheGuard<T, F>)
        ensures
            g.pool_is(self),
    {
        proof { use_type_invariant(&*self.inner); }
        let (mut state, handle) = self.inner.pool.acquire_write();
        let item = state.take_or_make(&self.inner.factory);
        handle.release_write(state);
        CacheGuard { shared: Arc::clone(&self.inner), loan: Loan { item: Some(item) } }
    }

    /// Resizes the pool so that it holds `new_size` objects and keeps at most
    /// `new_size`, by [`PoolState::resize`] under the lock: surplus ones are dropped when
    /// it shrinks, and fresh objects are made when it grows. Objects that are checked out
    /// are not affected; when they come back, they are dropped if the pool is full.
    pub fn resize(&self, new_size: usize) {
        proof { use_type_invariant(&*self.inner); }
        let (mut state, handle) = self.inner.pool.acquire_write();
        state.resize(new_size, &self.inner.factory);
        handle.release_write(state);
    }

    /// Number of objects in the pool at the time of the call.
    pub fn available(&self) -> (n: usize) {
        let (state, handle) = self.inner.pool.acquire_write();
        let n = state.available();
        handle.release_write(state);
        n
    }

    /// The pool's capacity at the time of the call.
    pub fn capacity(&self) -> (c: usize) {
        let (state, handle) = self.inner.pool.acquire_write();
        let c = state.capacity();
        handle.release_write(state);
        c
    }

    /// Drops every object the pool holds; the capacity stays.
    pub fn discard_available(&self) {
        let (mut state, handle) = self.inner.pool.acquire_write();
        state.clear();
        handle.release_write(state);
    }
}

impl<T, F: Fn() -> T> Clone for Cache<T, F> {
    /// Another handle to the same pool.
    fn clone(&self) -> (c: Self)
        ensures
            c.same_pool(self),
    {
        Cache { inner: Arc::clone(&self.inner) }
    }
}

/// A guard holding an object taken from a cache. It dereferences to the object;
/// [`release`](CacheGuard::release) gives the object back to the pool (or drops it if
/// the pool is full), and [`take`](CacheGuard::take) keeps it for good.
#[verifier::reject_recursive_types(T)]
pub struct CacheGuard<T, F: Fn() -> T> {
    shared: Arc<Shared<T, F>>,
    loan: Loan<T>,
}

/// The object on loan, while the guard holds it.
struct Loan<T> {
    item: Option<T>,
}

impl<T> Loan<T> {
    /// Mutable access to the object on loan.
    fn item_mut(&mut self) -> (r: &mut T)
        requires
            old(self).item is Some,
        ensures
            *r == old(self).item->0,
            final(self).item == Some(*final(r)),
        no_unwind
    {
        match &mut self.item {
            Some(item) => item,
            None => vstd::pervasive::unreached(),
        }
    }
}

impl<T, F: Fn() -> T> CacheGuard<T, F> {
    #[verifier::type_invariant]
    spec fn guard_inv(self) -> bool {
        self.loan.item is Some
    }

    /// The object the guard holds.
    pub closed spec fn item(&self) -> T {
        self.loan.item->0
    }

    /// The guard returns its object to the pool of `cache`.
    pub closed spec fn pool_is(&self, cache: &Cache<T, F>) -> bool {
        self.shared == cache.inner
    }

    /// Consumes the guard and takes ownership of the object, which then never goes
    /// back to the pool.
    pub fn take(self) -> (r: T)
        ensures
            r == self.item(),
    {
        proof { use_type_invariant(&self); }
        let CacheGuard { shared: _, loan } = self;
        match loan.item {
            Some(item) => item,
            None => vstd::pervasive::unreached(),
        }
    }

    /// Consumes the guard and gives the object back to its pool, where it is dropped
    /// if the pool already holds as many objects as its capacity.
    pub fn release(self) {
        proof { use_type_invariant(&self); }
        let CacheGuard { shared, loan } = self;
        match loan.item {
            Some(item) => shared.give_back(item),
            None => {},
        }
    }

}

impl<T, F: Fn() -> T> core::ops::Deref for CacheGuard<T, F> {
    type Target = T;

    fn deref(&self) -> (r: &T)
        ensures
            *r == self.item(),
    {
        proof { use_type_invariant(self); }
        match &self.loan.item {
            Some(item) => item,
            None => vstd::pervasive::unreached(),
        }
    }
}

impl<T, F: Fn() -> T> core::ops::DerefMut for CacheGuard<T, F> {
    /// Mutable access to the object.
    fn deref_mut(&mut self) -> (r: &mut T)
        ensures
            *r == old(self).item(),
            final(self).item() == *final(r),
    {
        proof { use_type_invariant(&*self); }
        self.loan.item_mut()
    }
}

} // verus!
