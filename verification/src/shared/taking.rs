//! Taking a slot, and the right to it that this gives.

use vstd::prelude::*;

use super::atom::{change_head, SharedWord};
use super::trace::{took, turned_away};
use crate::free_list::{is_slot, Request};
use crate::log::Log;
use crate::word::unpack_idx;

verus! {

/// The right to a slot that was taken off a free list and is not back on it.
///
/// [`take_top`] makes one, and giving the slot back uses it up. It cannot be
/// copied, and code outside this module cannot make one.
pub struct Taken {
    slot: u64,
    list: Ghost<SharedWord>,
}

impl Taken {
    /// The slot.
    pub closed spec fn slot(self) -> u64 {
        self.slot
    }

    /// The head of the list that the slot was taken off.
    pub closed spec fn list(self) -> SharedWord {
        self.list@
    }

    /// Returns the slot.
    pub(crate) fn number(&self) -> (slot: u64)
        ensures
            slot == self.slot(),
        opens_invariants none
        no_unwind
    {
        self.slot
    }
}

/// Takes the top slot off the list, if its head names one.
pub(crate) fn take_top(
    head: &SharedWord,
    links: &Vec<SharedWord>,
    log: &mut Log,
) -> (taken: Option<Taken>)
    requires
        links@.len() <= u32::MAX,
    ensures
        match taken {
            Some(taken) => {
                &&& taken.list() == *head
                &&& is_slot(taken.slot() as int, links@.len())
                &&& took(
                    *head,
                    links@,
                    old(log).made(),
                    final(log).made(),
                    taken.slot() as int,
                )
            },
            None => turned_away(*head, links@, old(log).made(), final(log).made()),
        },
    opens_invariants none
    no_unwind
{
    match change_head(head, links, Request::Pop, log) {
        Ok(observed) => Some(Taken { slot: unpack_idx(observed), list: Ghost(*head) }),
        Err(_) => None,
    }
}

} // verus!
