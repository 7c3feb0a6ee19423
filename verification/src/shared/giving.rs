//! Giving a slot back.

use vstd::prelude::*;

use super::atom::{change_head, SharedWord};
use super::taking::Taken;
use super::trace::gave_back;
use crate::free_list::{is_slot, Request};
use crate::log::Log;

verus! {

/// Gives a slot back: puts it on top of the list that it was taken off.
pub(crate) fn return_slot(
    head: &SharedWord,
    links: &Vec<SharedWord>,
    taken: Taken,
    log: &mut Log,
)
    requires
        links@.len() <= u32::MAX,
        taken.list() == *head,
        is_slot(taken.slot() as int, links@.len()),
    ensures
        gave_back(*head, links@, old(log).made(), final(log).made(), taken.slot()),
    opens_invariants none
    no_unwind
{
    let _ = change_head(head, links, Request::Push { slot: taken.number() }, log);
}

} // verus!
