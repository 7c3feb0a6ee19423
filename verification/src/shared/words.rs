//! The words of one pool.

use std::marker::PhantomData;
use std::sync::Mutex;
use vstd::prelude::*;

use super::atom::{load_word, make_word, store_word, Access, SharedWord};
use crate::free_list::{first_link, fresh_head, fresh_links};
use crate::log::Log;
use crate::word::pack;

verus! {

impl SharedWord {
    /// Makes a word that holds `value`.
    pub(super) fn new(value: u64) -> (word: SharedWord)
        ensures
            word.in_turn().len() > 0,
            word.initial() == value,
        opens_invariants none
        no_unwind
    {
        make_word(value)
    }

    /// Reads the word.
    pub(super) fn load(&self, log: &mut Log) -> (value: u64)
        ensures
            self.read().contains(value),
            self.in_turn().contains(value),
            final(log).made() == old(log).made().push(Access::Load { word: *self, value }),
        opens_invariants none
        no_unwind
    {
        load_word(self, log)
    }

    /// Writes the word.
    pub(super) fn store(&self, value: u64, log: &mut Log)
        ensures
            self.in_turn().contains(value),
            final(log).made() == old(log).made().push(Access::Store { word: *self, value }),
        opens_invariants none
        no_unwind
    {
        let _ = store_word(self, value, log);
    }
}

/// The head and the links of a list whose slots are for values of one type.
///
/// [`fresh_words`] makes them, and they stay with a pool of that type: no pool
/// of another type can be had over them.
#[verifier::reject_recursive_types(T)]
pub struct Words<T> {
    head: SharedWord,
    links: Vec<SharedWord>,
    marker: PhantomData<Mutex<T>>,
}

impl<T> Words<T> {
    /// The head of the list.
    pub closed spec fn head_word(self) -> SharedWord {
        self.head
    }

    /// The links of the list, one per slot.
    pub closed spec fn link_words(self) -> Seq<SharedWord> {
        self.links@
    }

    /// Lends the head.
    pub(crate) fn head(&self) -> (head: &SharedWord)
        ensures
            *head == self.head_word(),
        opens_invariants none
        no_unwind
    {
        &self.head
    }

    /// Lends the links.
    pub(crate) fn links(&self) -> (links: &Vec<SharedWord>)
        ensures
            links@ == self.link_words(),
        opens_invariants none
        no_unwind
    {
        &self.links
    }
}

/// Makes the words of a list that holds all of `capacity` slots.
///
/// No log is at hand here, so the words are made and not accessed.
pub(crate) fn fresh_words<T>(capacity: u32) -> (words: Words<T>)
    requires
        1 <= capacity,
    ensures
        words.head_word().initial() == fresh_head(),
        words.link_words().len() == capacity,
        words.link_words().map_values(|word: SharedWord| word.initial()) == fresh_links(
            capacity as nat,
        ),
{
    let mut links: Vec<SharedWord> = Vec::with_capacity(capacity as usize);
    let mut slot: u64 = 1;
    while slot <= capacity as u64
        invariant
            1 <= slot <= capacity + 1,
            links@.len() == slot - 1,
            forall|k: int|
                0 <= k < links@.len() ==> (#[trigger] links@[k]).initial() == fresh_links(
                    capacity as nat,
                )[k],
        decreases capacity + 1 - slot,
    {
        links.push(SharedWord::new(first_link(slot, capacity as u64)));
        slot = slot + 1;
    }
    Words { head: SharedWord::new(pack(1, 0)), links, marker: PhantomData }
}

} // verus!
