//! Logs of the accesses to shared words, and the calls that open one.
//!
//! Only this module can open a log, and it cannot reach the words of a pool. Its
//! calls hand the log to the functions that do their work. Those reach the words
//! but cannot make an access without noting it in the log that they were handed.
//! So their contracts speak of all that they did.
//!
//! A call that takes a slot promises to open no invariant and not to unwind.
//! Counting promises less, so taking a slot cannot count the free slots first and
//! cannot wait for their number to change.

use vstd::prelude::*;

use crate::error::{SlabPoolError, MAX_SLOTS};
use crate::free_list::{free_slots, fresh_head, fresh_links, is_slot};
use crate::list_laws::slots_in_order;
use crate::pool::ticket::Ticket;
use crate::pool::{PoolGuard, PoolStats, SlabPool};
use crate::shared::trace::{counted, gave_back, took, turned_away, walked};
use crate::shared::Access;

verus! {

/// The accesses to shared words that were made, in order.
///
/// Every access is noted in a log, and nothing takes a note out.
pub struct Log {
    made: Ghost<Seq<Access>>,
}

impl Log {
    /// The accesses that were made.
    pub closed spec fn made(self) -> Seq<Access> {
        self.made@
    }

    /// Opens a log.
    fn new() -> (log: Log)
        ensures
            log.made() == Seq::<Access>::empty(),
        opens_invariants none
        no_unwind
    {
        Log { made: Ghost(Seq::empty()) }
    }
}

impl<T> SlabPool<T> {
    /// Makes a pool of `capacity` slots, all of them free.
    ///
    /// # Errors
    ///
    /// [`SlabPoolError::ZeroCapacity`] if `capacity` is zero,
    /// [`SlabPoolError::CapacityOverflow`] if it exceeds [`MAX_SLOTS`].
    pub fn new(capacity: usize) -> (made: Result<SlabPool<T>, SlabPoolError>)
        ensures
            match made {
                Ok(pool) => {
                    &&& 1 <= capacity <= MAX_SLOTS
                    &&& pool.slot_count() == capacity
                    &&& pool.initial_head() == fresh_head()
                    &&& pool.initial_links() == fresh_links(capacity as nat)
                    &&& free_slots(pool.initial_head(), pool.initial_links()) == slots_in_order(
                        capacity as nat,
                    )
                },
                Err(SlabPoolError::ZeroCapacity) => capacity == 0,
                Err(SlabPoolError::CapacityOverflow(asked)) => asked == capacity && capacity
                    > MAX_SLOTS,
            },
    {
        let mut log: Log = Log::new();
        SlabPool::new_noted(capacity, &mut log)
    }

    /// Takes a slot and moves `value` into its guard.
    ///
    /// Returns `None`, without waiting, if the head of the free list names no
    /// slot: all of them are held by live guards.
    pub fn allocate(&self, value: T) -> (guard: Option<PoolGuard<'_, T>>)
        ensures
            match guard {
                Some(guard) => {
                    &&& guard.value() == value
                    &&& guard.pool() == *self
                    &&& guard.holds_right()
                    &&& is_slot(guard.slot() as int, self.slot_count())
                    &&& exists|made: Seq<Access>| #[trigger]
                        took(
                            self.head_word(),
                            self.link_words(),
                            Seq::empty(),
                            made,
                            guard.slot() as int,
                        )
                },
                None => {
                    &&& has_resolved(value)
                    &&& exists|made: Seq<Access>| #[trigger]
                        turned_away(self.head_word(), self.link_words(), Seq::empty(), made)
                },
            },
        opens_invariants none
        no_unwind
    {
        let mut log: Log = Log::new();
        self.allocate_noted(value, &mut log)
    }

    /// Counts the free slots by walking the free list.
    ///
    /// The count is exact while no client takes a slot or gives one back, and
    /// approximate otherwise; it is never more than the number of slots.
    #[must_use]
    pub fn stats(&self) -> (stats: PoolStats)
        ensures
            stats.capacity == self.slot_count(),
            stats.free <= stats.capacity,
            exists|made: Seq<Access>| #[trigger]
                counted(
                    self.head_word(),
                    self.link_words(),
                    Seq::empty(),
                    made,
                    stats.free as int,
                ),
            exists|observed: u64, cursors: Seq<u64>| #[trigger]
                walked(self.link_words(), observed, cursors) && self.head_word().read().contains(
                    observed,
                ) && cursors.len() == stats.free + 1,
        no_unwind
    {
        let mut log: Log = Log::new();
        self.stats_noted(&mut log)
    }
}

impl<'pool> Drop for Ticket<'pool> {
    /// Gives the slot back.
    fn drop(&mut self)
        ensures
            !final(self).holds_right(),
            final(self).slot() == old(self).slot(),
            final(self).head() == old(self).head(),
            final(self).links() == old(self).links(),
            old(self).holds_right() ==> exists|made: Seq<Access>| #[trigger]
                gave_back(
                    old(self).head(),
                    old(self).links(),
                    Seq::empty(),
                    made,
                    old(self).slot(),
                ),
        opens_invariants none
        no_unwind
    {
        let mut log: Log = Log::new();
        self.redeem(&mut log);
    }
}

} // verus!
