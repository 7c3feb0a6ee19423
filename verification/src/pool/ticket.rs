//! Tickets: rights to slots that go back by themselves.

use vstd::prelude::*;

use crate::free_list::is_slot;
use crate::log::Log;
use crate::shared::giving::return_slot;
use crate::shared::taking::{take_top, Taken};
use crate::shared::trace::{gave_back, took, turned_away};
use crate::shared::SharedWord;

verus! {

/// The right to one slot of a free list. The slot goes back when the ticket is
/// dropped.
pub struct Ticket<'pool> {
    head: &'pool SharedWord,
    links: &'pool Vec<SharedWord>,
    slot: u64,
    right: Option<Taken>,
}

impl<'pool> Ticket<'pool> {
    #[verifier::type_invariant]
    spec fn well_formed(self) -> bool {
        &&& self.links@.len() <= u32::MAX
        &&& is_slot(self.slot as int, self.links@.len())
        &&& self.right matches Some(taken) ==> taken.slot() == self.slot && taken.list()
            == *self.head
    }

    /// The head of the list.
    pub closed spec fn head(self) -> SharedWord {
        *self.head
    }

    /// The links of the list.
    pub closed spec fn links(self) -> Seq<SharedWord> {
        self.links@
    }

    /// The slot.
    pub closed spec fn slot(self) -> u64 {
        self.slot
    }

    /// Whether the slot is still this ticket's to give back.
    pub closed spec fn holds_right(self) -> bool {
        self.right is Some
    }

    /// Takes the top slot off the list, if its head names one.
    pub(super) fn take(
        head: &'pool SharedWord,
        links: &'pool Vec<SharedWord>,
        log: &mut Log,
    ) -> (ticket: Option<Ticket<'pool>>)
        requires
            links@.len() <= u32::MAX,
        ensures
            match ticket {
                Some(ticket) => {
                    &&& ticket.head() == *head
                    &&& ticket.links() == links@
                    &&& ticket.holds_right()
                    &&& is_slot(ticket.slot() as int, links@.len())
                    &&& took(
                        *head,
                        links@,
                        old(log).made(),
                        final(log).made(),
                        ticket.slot() as int,
                    )
                },
                None => turned_away(*head, links@, old(log).made(), final(log).made()),
            },
        opens_invariants none
        no_unwind
    {
        match take_top(head, links, log) {
            Some(taken) => Some(Ticket { head, links, slot: taken.number(), right: Some(taken) }),
            None => None,
        }
    }

    /// Returns the slot.
    pub(super) fn number(&self) -> (slot: u64)
        ensures
            slot == self.slot(),
            is_slot(slot as int, self.links().len()),
        opens_invariants none
        no_unwind
    {
        proof {
            use_type_invariant(self);
        }
        self.slot
    }

    /// Gives the slot back, if it is still this ticket's to give back.
    pub(crate) fn redeem(&mut self, log: &mut Log)
        ensures
            !final(self).holds_right(),
            final(self).slot() == old(self).slot(),
            final(self).head() == old(self).head(),
            final(self).links() == old(self).links(),
            if old(self).holds_right() {
                gave_back(
                    old(self).head(),
                    old(self).links(),
                    old(log).made(),
                    final(log).made(),
                    old(self).slot(),
                )
            } else {
                final(log).made() == old(log).made()
            },
        opens_invariants none
        no_unwind
    {
        proof {
            use_type_invariant(&*self);
        }
        let mut right: Option<Taken> = None;
        std::mem::swap(&mut right, &mut self.right);
        match right {
            Some(taken) => return_slot(self.head, self.links, taken, log),
            None => {},
        }
    }
}

} // verus!
