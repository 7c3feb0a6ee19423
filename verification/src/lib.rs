//! A pool of a fixed number of slots, lent out without a lock.
//!
//! Free slots form a stack that is threaded through one link word per slot. Its
//! head is one word that packs the index of the top slot with a tag. Taking a
//! slot and giving it back are one compare-and-swap of the head each, and each
//! raises the tag by one. So a client that observed the head, and slept while
//! the observed slot was taken and given back, finds another tag, and its swap
//! fails instead of putting a stale link on top.
//!
//! [`SlabPool::allocate`] takes a slot and returns a [`PoolGuard`] that owns it
//! until it is dropped. It returns `None` at once when no slot is free.
//!
//! [`machine`] describes how clients of one free list interleave, access by
//! access, and [`machine_laws`] what holds of every interleaving: no slot has two
//! owners, none is lost, and a stale swap fails. Every access to a shared word is
//! noted in a [`log`] that exists for the proofs alone, and the contracts of the
//! pool say which accesses a call makes. [`call_laws`] carries them over to the
//! machine: each is an action of a client, however the others interleave with
//! it. The machine takes accesses to happen one at a time, and its laws leave out
//! clients that sleep through as many swaps as there are tags before they take a
//! slot.

pub mod call_laws;
pub mod error;
pub mod free_list;
pub mod list_laws;
pub mod log;
pub mod machine;
pub mod machine_laws;
pub mod pool;
pub mod shared;
pub mod text;
pub mod word;

pub use error::SlabPoolError;
pub use pool::{PoolGuard, PoolStats, SlabPool};
