//! Single-slot, overwrite-on-publish broadcast mailbox.
//!
//! A `Signal` holds at most one pending value. Publishing never blocks and
//! overwrites any unconsumed prior value, so a consumer observes at most
//! the most recent value (latest-wins, at-most-once delivery). The
//! asynchronous side of the original primitive — suspending a consumer
//! until a value arrives — is the host loop's business: it repeatedly
//! calls `take` and suspends while the slot is empty.

use vstd::prelude::*;

verus! {

/// Pending-slot content after a publish: the new value replaces whatever
/// was there (latest wins).
pub open spec fn publish_model<T>(slot: Option<T>, v: T) -> Option<T> {
    Some(v)
}

/// Pending-slot content and returned value of a take: the slot is drained
/// and its content, if any, is handed out exactly once.
pub open spec fn take_model<T>(slot: Option<T>) -> (Option<T>, Option<T>) {
    (None, slot)
}

/// A single-slot mailbox.
pub struct Signal<T> {
    slot: Option<T>,
}

impl<T> Signal<T> {
    /// The value waiting to be consumed, if any.
    pub closed spec fn pending(self) -> Option<T> {
        self.slot
    }

    /// A fresh mailbox holds nothing.
    pub fn new() -> (s: Self)
        ensures
            s.pending() == None::<T>,
    {
        Signal { slot: None }
    }

    /// Publish a value: never blocks, overwrites any unconsumed value.
    pub fn publish(&mut self, v: T)
        ensures
            final(self).pending() == publish_model(old(self).pending(), v),
    {
        self.slot = Some(v);
    }

    /// Drain the slot. `None` means nothing was published since the last
    /// take; a suspending consumer retries after yielding.
    pub fn take(&mut self) -> (r: Option<T>)
        ensures
            r == old(self).pending(),
            final(self).pending() == None::<T>,
            (final(self).pending(), r) == take_model(old(self).pending()),
    {
        self.slot.take()
    }
}

/// Latest-wins law: publishing `v1` then `v2` before any take leaves
/// exactly `v2` pending; the first take returns it and the second take
/// returns nothing. A value published after a take has drained the slot
/// is delivered in full on the next take.
pub proof fn lemma_latest_wins<T>(slot: Option<T>, v1: T, v2: T, v3: T)
    ensures
        take_model(publish_model(publish_model(slot, v1), v2)).1 == Some(v2),
        take_model(take_model(publish_model(publish_model(slot, v1), v2)).0).1 == None::<T>,
        take_model(publish_model(take_model(publish_model(publish_model(slot, v1), v2)).0, v3)).1
            == Some(v3),
{
}

} // verus!
