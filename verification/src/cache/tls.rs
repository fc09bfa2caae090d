//! The slot of a thread-local cache.
//!
//! A thread-local cache keeps one value per thread so that it is allocated once and
//! reused. A taker takes the value out of the slot and marks the slot held; when the
//! taker is done, the value goes back and the slot is released. Taking from a slot
//! that is already held is not allowed.

use vstd::prelude::*;

verus! {

/// How an attempt to take a value from a slot ended.
pub enum TakeOutcome<T> {
    /// A value is ready for the taker.
    Ready,
    /// Resetting the value the slot kept failed; the value is handed back.
    ResetFailed(T),
    /// No value came out: making a fresh one failed, or the attempt stopped.
    NoValue,
}

/// The state of a thread-local cache slot: whether a taker holds it, and the value it
/// keeps for the next taker.
pub struct TlsSlot<T> {
    held: bool,
    data: Option<T>,
}

impl<T> TlsSlot<T> {
    /// A taker holds the slot.
    pub closed spec fn held(&self) -> bool {
        self.held
    }

    /// The value kept in the slot.
    pub closed spec fn data(&self) -> Option<T> {
        self.data
    }

    /// An empty slot that nobody holds.
    pub fn new() -> (s: Self)
        ensures
            !s.held(),
            s.data() is None,
    {
        TlsSlot { held: false, data: None }
    }

    /// Whether a taker holds the slot.
    pub fn is_held(&self) -> (r: bool)
        ensures
            r == self.held(),
    {
        self.held
    }

    /// Marks the slot held and takes out the value it keeps: a value to reset and
    /// reuse, or `None` when a fresh one must be made.
    pub fn begin_take(&mut self) -> (r: Option<T>)
        requires
            !old(self).held(),
        ensures
            final(self).held(),
            final(self).data() is None,
            r == old(self).data(),
    {
        self.held = true;
        self.data.take()
    }

    /// Ends an attempt to take from the slot, by its outcome: when a value is ready,
    /// the taker keeps holding the slot; when resetting the kept value failed, the slot
    /// is released and keeps that value; when no value came out, the slot is released
    /// and keeps nothing.
    pub fn finish_take(&mut self, outcome: TakeOutcome<T>)
        requires
            old(self).held(),
        ensures
            outcome is Ready ==> final(self).held() && final(self).data() == old(self).data(),
            (outcome matches TakeOutcome::ResetFailed(v) ==> !final(self).held()
                && final(self).data() == Some(v)),
            outcome is NoValue ==> !final(self).held() && final(self).data() is None,
    {
        match outcome {
            TakeOutcome::Ready => {},
            TakeOutcome::ResetFailed(v) => {
                self.held = false;
                self.data = Some(v);
            },
            TakeOutcome::NoValue => {
                self.held = false;
                self.data = None;
            },
        }
    }

    /// Releases a held slot, which then keeps `value` for the next taker.
    pub fn give_back(&mut self, value: T)
        requires
            old(self).held(),
        ensures
            !final(self).held(),
            final(self).data() == Some(value),
    {
        self.held = false;
        self.data = Some(value);
    }
}

} // verus!
