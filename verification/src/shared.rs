//! The words that clients share, and what one look at them leads to.

use vstd::prelude::*;

use crate::free_list::{
    head_after_pop, head_after_push, is_slot, top_slot, walk_goes_on, Request,
};
use crate::log::Log;
use crate::word::{index_of, unpack_idx};

pub mod atom;
pub mod giving;
pub mod taking;
pub mod trace;
pub mod words;

pub use atom::{Access, SharedWord};
pub use taking::Taken;
pub use words::Words;

verus! {

/// Where the link word of `slot` stands.
pub fn link_position(slot: u64, capacity: u32) -> (position: usize)
    requires
        is_slot(slot as int, capacity as nat),
    ensures
        position == slot - 1,
    opens_invariants none
    no_unwind
{
    (slot - 1) as usize
}

/// The number of link words.
fn link_count(links: &Vec<SharedWord>) -> (count: u32)
    requires
        links@.len() <= u32::MAX,
    ensures
        count == links@.len(),
    no_unwind
{
    links.len() as u32
}

/// Answers one observation of the head: reads or writes the one link word that
/// `request` is about, and computes the head to swap in, if there is one.
pub fn respond(
    links: &Vec<SharedWord>,
    request: Request,
    observed: u64,
    log: &mut Log,
) -> (answer: Option<u64>)
    requires
        links@.len() <= u32::MAX,
        request.fits(links@.len()),
    ensures
        match answer {
            Some(head) => {
                &&& request.accepts(observed, links@.len())
                &&& exists|word: u64| #[trigger]
                    trace::touched(links@, request, observed, word) && head == request.new_head(
                        observed,
                        word,
                    ) && final(log).made() == old(log).made().push(
                        trace::link_access(links@, request, observed, word),
                    )
            },
            None => {
                &&& !request.accepts(observed, links@.len())
                &&& final(log).made() == old(log).made()
            },
        },
    no_unwind
{
    let capacity: u32 = link_count(links);
    match request {
        Request::Pop => match top_slot(observed, capacity) {
            Some(top) => {
                let link: u64 = links[link_position(top, capacity)].load(log);
                assert(trace::touched(links@, request, observed, link));
                Some(head_after_pop(observed, link))
            },
            None => None,
        },
        Request::Push { slot } => {
            let below: u64 = unpack_idx(observed);
            links[link_position(slot, capacity)].store(below, log);
            assert(trace::touched(links@, request, observed, below));
            Some(head_after_push(observed, slot))
        },
    }
}

/// Counts the slots on the free list by walking it.
///
/// Where other clients act meanwhile, the count is the length of the walk, which
/// ends after as many slots as there are.
pub fn count_free(head: &SharedWord, links: &Vec<SharedWord>, log: &mut Log) -> (free: u32)
    requires
        links@.len() <= u32::MAX,
    ensures
        free <= links@.len(),
        trace::counted(*head, links@, old(log).made(), final(log).made(), free as int),
        exists|observed: u64, cursors: Seq<u64>| #[trigger]
            trace::walked(links@, observed, cursors) && head.read().contains(observed)
                && cursors.len() == free + 1,
    no_unwind
{
    let capacity: u32 = link_count(links);
    let observed: u64 = head.load(log);
    let ghost before = log.made();
    let mut cursor: u64 = unpack_idx(observed);
    let mut free: u32 = 0;
    let ghost mut cursors: Seq<u64> = seq![cursor];
    while walk_goes_on(cursor, free, capacity)
        invariant
            capacity == links@.len(),
            free <= capacity,
            cursors.len() == free + 1,
            cursors[0] == index_of(observed),
            cursors.last() == cursor,
            forall|k: int|
                0 <= k < free ==> {
                    &&& is_slot(#[trigger] cursors[k] as int, capacity as nat)
                    &&& links@[cursors[k] - 1].read().contains(cursors[k + 1])
                },
            log.made() == before + trace::walk_loads(links@, cursors),
        decreases capacity - free,
    {
        let link: u64 = links[link_position(cursor, capacity)].load(log);
        proof {
            let met = cursors.push(link);
            assert(log.made() =~= before + trace::walk_loads(links@, met));
            cursors = met;
        }
        free = free + 1;
        cursor = link;
    }
    assert(trace::walked(links@, observed, cursors));
    free
}

} // verus!
