//! Global cap on **simultaneous** file transfers.
//!
//! Optional and off by default: `0` = no cap. Each transfer takes a slot
//! before starting and gives it back when it ends, whatever happens. The
//! count lives in [`SlotState`], which knows nothing of tasks or waiting —
//! it only adds and subtracts.
use vstd::prelude::*;

verus! {

/// Slot count: how many fit (`limit`, `0` = no cap) and how many are taken
/// right now.
#[derive(Debug, Clone, Copy, PartialEq, Eq, Structural)]
pub struct SlotState {
    limit: u32,
    in_use: u32,
}

impl SlotState {
    pub closed spec fn limit_spec(&self) -> u32 {
        self.limit
    }

    pub closed spec fn in_use_spec(&self) -> u32 {
        self.in_use
    }

    /// One more transfer would have to wait for its turn.
    pub open spec fn full(&self) -> bool {
        self.limit_spec() != 0 && self.in_use_spec() >= self.limit_spec()
    }

    pub fn new(limit: u32) -> (r: Self)
        ensures
            r.limit_spec() == limit,
            r.in_use_spec() == 0,
    {
        SlotState { limit, in_use: 0 }
    }

    /// Takes a slot if one is left. `false` = the transfer has to wait.
    pub fn try_take(&mut self) -> (r: bool)
        requires
            !(old(self).limit_spec() == 0 && old(self).in_use_spec() == u32::MAX),
        ensures
            r == !old(self).full(),
            final(self).limit_spec() == old(self).limit_spec(),
            final(self).in_use_spec() == (if r { old(self).in_use_spec() + 1 } else { old(self).in_use_spec() as int }),
    {
        if self.limit != 0 && self.in_use >= self.limit {
            return false;
        }
        self.in_use += 1;
        true
    }

    /// Gives a slot back. Saturates at 0: releasing too often never opens
    /// slots that do not exist.
    pub fn release(&mut self)
        ensures
            final(self).limit_spec() == old(self).limit_spec(),
            final(self).in_use_spec() == (if old(self).in_use_spec() == 0 { 0 } else { old(self).in_use_spec() - 1 }),
    {
        self.in_use = self.in_use.saturating_sub(1);
    }

    /// Changes the cap. **Aborts nothing**: transfers already running finish
    /// and the new cap applies to the next ones.
    pub fn set_limit(&mut self, limit: u32)
        ensures
            final(self).limit_spec() == limit,
            final(self).in_use_spec() == old(self).in_use_spec(),
    {
        self.limit = limit;
    }

    /// `true` if one more transfer would have to wait for its turn.
    pub fn would_wait(&self) -> (r: bool)
        ensures
            r == self.full(),
    {
        self.limit != 0 && self.in_use >= self.limit
    }

    /// Slots taken right now.
    pub fn in_use(&self) -> (r: u32)
        ensures
            r == self.in_use_spec(),
    {
        self.in_use
    }

    /// The current cap (`0` = none).
    pub fn limit(&self) -> (r: u32)
        ensures
            r == self.limit_spec(),
    {
        self.limit
    }
}

/// With a cap set, taking slots never goes past it: a state within its cap
/// stays within it after any `try_take`.
pub proof fn lemma_cap_is_respected(before: SlotState, after: SlotState, taken: bool)
    requires
        before.limit_spec() != 0,
        before.in_use_spec() <= before.limit_spec(),
        taken == !before.full(),
        after.limit_spec() == before.limit_spec(),
        after.in_use_spec() == (if taken { before.in_use_spec() + 1 } else { before.in_use_spec() as int }),
    ensures
        after.in_use_spec() <= after.limit_spec(),
{
}

/// A `release` after a successful `try_take` gives back the state before.
pub proof fn lemma_release_undoes_take(before: SlotState, mid: SlotState, after: SlotState)
    requires
        !before.full(),
        mid.limit_spec() == before.limit_spec(),
        mid.in_use_spec() == before.in_use_spec() + 1,
        after.limit_spec() == mid.limit_spec(),
        after.in_use_spec() == (if mid.in_use_spec() == 0 { 0 } else { mid.in_use_spec() - 1 }),
    ensures
        after == before,
{
}

} // verus!
