//! The pool and its guards.

use std::cell::Cell;
use std::marker::PhantomData;
use std::ops::{Deref, DerefMut};
use std::sync::Mutex;
use vstd::prelude::*;

use crate::error::{SlabPoolError, MAX_SLOTS};
use crate::free_list::{free_slots, fresh_head, fresh_links, is_slot};
use crate::list_laws::{law_fresh_list_holds_all, slots_in_order};
use crate::log::Log;
use crate::shared::trace::{counted, took, turned_away, walked};
use crate::shared::words::fresh_words;
use crate::shared::{count_free, SharedWord, Words};
use crate::text::{decimal, decimal_text, law_decimal_tells_numbers_apart};

pub mod ticket;

use ticket::Ticket;

verus! {

/// `std::sync::Mutex`, which marks what a pool may be shared for: like a mutex,
/// it may be shared where its values may be sent.
#[verifier::external_type_specification]
#[verifier::external_body]
#[verifier::reject_recursive_types(T)]
pub struct ExMutex<T: ?Sized>(std::sync::Mutex<T>);

/// `std::cell::Cell`, which marks what a guard may be used for: like a cell, it
/// may be sent where its value may, and is never shared.
#[verifier::external_type_specification]
#[verifier::external_body]
#[verifier::reject_recursive_types(T)]
pub struct ExCell<T: ?Sized>(std::cell::Cell<T>);

/// A fixed number of slots, lent out one by one without a lock.
///
/// The right to a slot passes through the free list. The guard of a slot
/// carries the value that it was given, for as long as it is live.
#[verifier::reject_recursive_types(T)]
pub struct SlabPool<T> {
    /// The head of the free list, and one link word per slot.
    words: Words<T>,
    /// The number of slots.
    capacity: u32,
    /// Pools of values that may be sent may be shared.
    marker: PhantomData<Mutex<T>>,
}

/// One slot of a pool. The slot goes back when this is dropped.
#[verifier::reject_recursive_types(T)]
struct Lease<'pool, T> {
    pool: &'pool SlabPool<T>,
    ticket: Ticket<'pool>,
}

/// Owns one slot of a pool and the value in it.
///
/// Dropping the guard drops the value first and then gives the slot back.
#[verifier::reject_recursive_types(T)]
pub struct PoolGuard<'pool, T> {
    value: T,
    lease: Lease<'pool, T>,
    /// Guards of values that may be sent may be sent, and are never shared.
    marker: PhantomData<Cell<T>>,
}

/// What a pool looked like at one time. Other clients may have changed it since.
#[derive(Debug, Clone, Copy, PartialEq, Eq, Structural)]
pub struct PoolStats {
    /// The number of slots.
    pub capacity: usize,
    /// The number of slots on the free list.
    pub free: usize,
}

impl<T> SlabPool<T> {
    #[verifier::type_invariant]
    spec fn well_formed(self) -> bool {
        &&& self.words.link_words().len() == self.capacity
        &&& 1 <= self.capacity <= MAX_SLOTS
    }

    /// The number of slots.
    pub closed spec fn slot_count(self) -> nat {
        self.capacity as nat
    }

    /// The head of the free list.
    pub closed spec fn head_word(self) -> SharedWord {
        self.words.head_word()
    }

    /// The links of the free list, one per slot.
    pub closed spec fn link_words(self) -> Seq<SharedWord> {
        self.words.link_words()
    }

    /// The value that the head was made with.
    pub open spec fn initial_head(self) -> u64 {
        self.head_word().initial()
    }

    /// The values that the links were made with.
    pub open spec fn initial_links(self) -> Seq<u64> {
        self.link_words().map_values(|word: SharedWord| word.initial())
    }

    /// Makes a pool of `capacity` slots, as [`Self::new`] does, and notes in `log`
    /// each access to its words: none is made.
    pub fn new_noted(capacity: usize, log: &mut Log) -> (made: Result<SlabPool<T>, SlabPoolError>)
        ensures
            final(log).made() == old(log).made(),
            match made {
                Ok(pool) => {
                    &&& 1 <= capacity <= MAX_SLOTS
                    &&& pool.slot_count() == capacity
                    &&& pool.initial_head() == fresh_head()
                    &&& pool.initial_links() == fresh_links(capacity as nat)
                    &&& free_slots(pool.initial_head(), pool.initial_links()) == slots_in_order(
                        capacity as nat,
                    )
                },
                Err(SlabPoolError::ZeroCapacity) => capacity == 0,
                Err(SlabPoolError::CapacityOverflow(asked)) => asked == capacity && capacity
                    > MAX_SLOTS,
            },
    {
        if capacity == 0 {
            return Err(SlabPoolError::ZeroCapacity);
        }
        if capacity > MAX_SLOTS {
            return Err(SlabPoolError::CapacityOverflow(capacity));
        }
        let words: Words<T> = fresh_words(capacity as u32);
        let pool = SlabPool { words, capacity: capacity as u32, marker: PhantomData };
        proof {
            law_fresh_list_holds_all(capacity as nat);
        }
        Ok(pool)
    }

    /// Takes a slot and moves `value` into its guard, as [`Self::allocate`] does,
    /// and notes each access in `log`: taking a slot is one swap of the head,
    /// after loads alone, and where none is taken, loads are all there is.
    pub fn allocate_noted(&self, value: T, log: &mut Log) -> (guard: Option<PoolGuard<'_, T>>)
        ensures
            match guard {
                Some(guard) => {
                    &&& guard.value() == value
                    &&& guard.pool() == *self
                    &&& guard.holds_right()
                    &&& is_slot(guard.slot() as int, self.slot_count())
                    &&& took(
                        self.head_word(),
                        self.link_words(),
                        old(log).made(),
                        final(log).made(),
                        guard.slot() as int,
                    )
                },
                None => {
                    &&& has_resolved(value)
                    &&& turned_away(
                        self.head_word(),
                        self.link_words(),
                        old(log).made(),
                        final(log).made(),
                    )
                },
            },
        opens_invariants none
        no_unwind
    {
        proof {
            use_type_invariant(self);
        }
        match Ticket::take(self.words.head(), self.words.links(), log) {
            Some(ticket) => Some(
                PoolGuard { value, lease: Lease { pool: self, ticket }, marker: PhantomData },
            ),
            None => None,
        }
    }

    /// Returns the number of slots.
    #[must_use]
    pub fn capacity(&self) -> (capacity: usize)
        ensures
            capacity == self.slot_count(),
            1 <= capacity <= MAX_SLOTS,
        opens_invariants none
        no_unwind
    {
        proof {
            use_type_invariant(self);
        }
        self.capacity as usize
    }

    /// Counts the free slots, as [`Self::stats`] does, and notes each access in
    /// `log`: the head is loaded once, and then the link of each slot that is
    /// counted.
    pub fn stats_noted(&self, log: &mut Log) -> (stats: PoolStats)
        ensures
            stats.capacity == self.slot_count(),
            stats.free <= stats.capacity,
            counted(
                self.head_word(),
                self.link_words(),
                old(log).made(),
                final(log).made(),
                stats.free as int,
            ),
            exists|observed: u64, cursors: Seq<u64>| #[trigger]
                walked(self.link_words(), observed, cursors) && self.head_word().read().contains(
                    observed,
                ) && cursors.len() == stats.free + 1,
        no_unwind
    {
        proof {
            use_type_invariant(self);
        }
        let free: u32 = count_free(self.words.head(), self.words.links(), log);
        PoolStats { capacity: self.capacity as usize, free: free as usize }
    }

    /// Describes the pool for debugging, on one line or on several: its
    /// capacity and nothing of what it holds.
    pub fn debug_text(&self, pretty: bool) -> (text: String)
        ensures
            text@ == if pretty {
                "SlabPool {\n    capacity: "@ + decimal(self.slot_count()) + ",\n    ..\n}"@
            } else {
                "SlabPool { capacity: "@ + decimal(self.slot_count()) + ", .. }"@
            },
    {
        let capacity: String = decimal_text(self.capacity());
        if pretty {
            let mut text: String = "SlabPool {\n    capacity: ".to_owned();
            text.append(capacity.as_str());
            text.append(",\n    ..\n}");
            text
        } else {
            let mut text: String = "SlabPool { capacity: ".to_owned();
            text.append(capacity.as_str());
            text.append(", .. }");
            text
        }
    }
}

impl<'pool, T> Lease<'pool, T> {
    #[verifier::type_invariant]
    spec fn well_formed(self) -> bool {
        &&& self.ticket.head() == self.pool.head_word()
        &&& self.ticket.links() == self.pool.link_words()
    }
}

impl<'pool, T> PoolGuard<'pool, T> {
    /// The value in the slot.
    pub closed spec fn value(self) -> T {
        self.value
    }

    /// The slot, numbered from one.
    pub closed spec fn slot(self) -> u64 {
        self.lease.ticket.slot()
    }

    /// The pool that the slot belongs to.
    pub closed spec fn pool(self) -> SlabPool<T> {
        *self.lease.pool
    }

    /// Whether the slot is this guard's: it gives the slot back when dropped.
    pub closed spec fn holds_right(self) -> bool {
        self.lease.ticket.holds_right()
    }

    /// Returns the number of the slot, counted from one.
    #[must_use]
    pub fn slot_index(&self) -> (slot: usize)
        ensures
            slot == self.slot(),
            is_slot(slot as int, self.pool().slot_count()),
        opens_invariants none
        no_unwind
    {
        proof {
            use_type_invariant(&self.lease);
            use_type_invariant(self.lease.pool);
        }
        self.lease.ticket.number() as usize
    }
}

impl<'pool, T> Deref for PoolGuard<'pool, T> {
    type Target = T;

    /// Lends the value.
    fn deref(&self) -> (value: &T)
        ensures
            *value == self.value(),
    {
        &self.value
    }
}

impl<'pool, T> DerefMut for PoolGuard<'pool, T> {
    /// Lends the value for change. The guard keeps its slot.
    fn deref_mut(&mut self) -> (value: &mut T)
        ensures
            *value == old(self).value(),
            final(self).value() == *final(value),
            final(self).slot() == old(self).slot(),
            final(self).pool() == old(self).pool(),
            final(self).holds_right() == old(self).holds_right(),
    {
        &mut self.value
    }
}

/// Each value that is handed to [`SlabPool::allocate`] is let go once. Where the
/// pool takes it, its guard carries it and lets go of it together with itself.
/// Where the pool refuses it, it is let go by the time that the call returns.
pub proof fn law_value_is_let_go<'pool, T>(
    pool: &'pool SlabPool<T>,
    value: T,
    outcome: Option<PoolGuard<'pool, T>>,
)
    requires
        call_ensures(SlabPool::<T>::allocate, (pool, value), outcome),
    ensures
        match outcome {
            Some(guard) => guard.value() == value && (has_resolved(guard) ==> has_resolved(value)),
            None => has_resolved(value),
        },
{
}

/// The debugging text of a pool tells its capacity and nothing else: two pools
/// have the same text, in either form, if and only if they have as many slots.
pub proof fn law_debug_text_tells_capacity<T, U>(
    one: &SlabPool<T>,
    other: &SlabPool<U>,
    pretty: bool,
    text: String,
    other_text: String,
)
    requires
        call_ensures(SlabPool::<T>::debug_text, (one, pretty), text),
        call_ensures(SlabPool::<U>::debug_text, (other, pretty), other_text),
    ensures
        text@ == other_text@ <==> one.slot_count() == other.slot_count(),
{
    if text@ == other_text@ {
        let (a, b) = (one.slot_count(), other.slot_count());
        if pretty {
            law_decimal_tells_numbers_apart(a, b, "SlabPool {\n    capacity: "@, ",\n    ..\n}"@);
        } else {
            law_decimal_tells_numbers_apart(a, b, "SlabPool { capacity: "@, ", .. }"@);
        }
    }
}

} // verus!
