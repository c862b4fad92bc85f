//! Generator of continuous connection ids.

use vstd::prelude::*;

verus! {

/// Identifier of one multiplexed connection.
pub type ID = usize;

/// Source of connection ids: each call of [`Generator::next_id`] hands out the
/// current counter and moves it on by one.
pub struct Generator {
    next: usize,
}

impl Generator {
    /// The id that the next call of `next_id` returns.
    pub closed spec fn view(&self) -> nat {
        self.next as nat
    }

    /// A generator whose first id is 0.
    pub fn new() -> (g: Generator)
        ensures
            g@ == 0,
    {
        Generator { next: 0 }
    }

    /// Returns the current id and advances the counter; after `usize::MAX` the
    /// counter starts again at 0.
    pub fn next_id(&mut self) -> (id: ID)
        ensures
            id as nat == old(self)@,
            final(self)@ == (if old(self)@ == usize::MAX { 0 } else { old(self)@ + 1 }),
    {
        let id: usize = self.next;
        self.next = id.wrapping_add(1);
        id
    }
}

} // verus!
