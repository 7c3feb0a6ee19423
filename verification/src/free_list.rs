//! The free list: slots threaded through their link words, top slot first.
//!
//! A list is a packed head word and one link word per slot. The head names the
//! top slot, each link the slot below it, and [`NIL`] ends the list.

use vstd::prelude::*;

use crate::word::{index_of, pack, packed_word, tag_of, unpack_idx, unpack_tag, NIL};

verus! {

/// Whether `n` numbers a slot of a pool with `capacity` slots.
pub open spec fn is_slot(n: int, capacity: nat) -> bool {
    1 <= n <= capacity
}

/// The slots met by following `links` from `cursor`, at most `fuel` of them.
pub open spec fn chain(cursor: int, links: Seq<u64>, fuel: nat) -> Seq<int>
    decreases fuel,
{
    if fuel == 0 || !is_slot(cursor, links.len()) {
        Seq::empty()
    } else {
        seq![cursor] + chain(links[cursor - 1] as int, links, (fuel - 1) as nat)
    }
}

/// The slots on the free list, top first.
pub open spec fn free_slots(head: u64, links: Seq<u64>) -> Seq<int> {
    chain(index_of(head), links, links.len())
}

/// Whether following `links` from `cursor` meets exactly `slots`, each once,
/// and then [`NIL`].
pub open spec fn threads(cursor: int, links: Seq<u64>, slots: Seq<int>) -> bool {
    &&& cursor == (if slots.len() == 0 {
        NIL as int
    } else {
        slots[0]
    })
    &&& slots.no_duplicates()
    &&& forall|k: int|
        0 <= k < slots.len() ==> {
            &&& is_slot(#[trigger] slots[k], links.len())
            &&& links[slots[k] - 1] == (if k + 1 < slots.len() {
                slots[k + 1]
            } else {
                NIL as int
            })
        }
}

/// The head word after the top slot, whose link is `link`, has been taken.
pub open spec fn popped_head(observed: u64, link: u64) -> u64 {
    packed_word(link as int, tag_of(observed) + 1)
}

/// The head word after `slot` has been put on top.
pub open spec fn pushed_head(observed: u64, slot: u64) -> u64 {
    packed_word(slot as int, tag_of(observed) + 1)
}

/// The head word of a new list: slot one on top, tag zero.
pub open spec fn fresh_head() -> u64 {
    packed_word(1, 0)
}

/// The link words of a new list: each slot leads to the next, the last to
/// [`NIL`].
pub open spec fn fresh_links(capacity: nat) -> Seq<u64> {
    Seq::new(
        capacity,
        |i: int|
            if i + 1 < capacity {
                (i + 2) as u64
            } else {
                NIL
            },
    )
}

/// A change that a client wants made to the head of a list.
#[derive(Clone, Copy)]
pub enum Request {
    /// Take the top slot.
    Pop,
    /// Put `slot` on top.
    Push { slot: u64 },
}

impl Request {
    /// Whether this can be asked of a list of `capacity` slots.
    pub open spec fn fits(self, capacity: nat) -> bool {
        self matches Request::Push { slot } ==> is_slot(slot as int, capacity)
    }

    /// Whether this is granted when the head is `observed`: a slot can be taken
    /// only if the head names one, and put back always.
    pub open spec fn accepts(self, observed: u64, capacity: nat) -> bool {
        self is Pop ==> is_slot(index_of(observed), capacity)
    }

    /// The slot whose link word this is about, when the head is `observed`: the
    /// top slot where one is taken, and the slot that is put back.
    pub open spec fn link_slot(self, observed: u64) -> int {
        match self {
            Request::Pop => index_of(observed),
            Request::Push { slot } => slot as int,
        }
    }

    /// The head that takes the place of `observed`, where `word` is the link
    /// word of [`Self::link_slot`].
    pub open spec fn new_head(self, observed: u64, word: u64) -> u64 {
        match self {
            Request::Pop => popped_head(observed, word),
            Request::Push { slot } => pushed_head(observed, slot),
        }
    }
}

/// Returns the slot on top of the list, if the head names one.
pub fn top_slot(head: u64, capacity: u32) -> (top: Option<u64>)
    ensures
        top == (if is_slot(index_of(head), capacity as nat) {
            Some(index_of(head) as u64)
        } else {
            None
        }),
    opens_invariants none
    no_unwind
{
    let idx: u64 = unpack_idx(head);
    if idx != NIL && idx <= capacity as u64 {
        Some(idx)
    } else {
        None
    }
}

/// Computes the head word that takes the top slot off the list.
pub fn head_after_pop(observed: u64, link: u64) -> (head: u64)
    ensures
        head == popped_head(observed, link),
    opens_invariants none
    no_unwind
{
    pack(link, unpack_tag(observed) + 1)
}

/// Computes the head word that puts `slot` on top of the list.
pub fn head_after_push(observed: u64, slot: u64) -> (head: u64)
    ensures
        head == pushed_head(observed, slot),
    opens_invariants none
    no_unwind
{
    pack(slot, unpack_tag(observed) + 1)
}

/// Computes the link word of `slot` in a new list.
pub fn first_link(slot: u64, capacity: u64) -> (link: u64)
    requires
        1 <= slot <= capacity,
    ensures
        link == fresh_links(capacity as nat)[slot - 1],
    opens_invariants none
    no_unwind
{
    if slot < capacity {
        slot + 1
    } else {
        NIL
    }
}

/// Whether a walk that stands at `cursor` and has counted some slots goes on: it
/// ends at an index that is no slot, and once all slots have been counted.
pub fn walk_goes_on(cursor: u64, counted: u32, capacity: u32) -> (on: bool)
    ensures
        on == (is_slot(cursor as int, capacity as nat) && counted < capacity),
    opens_invariants none
    no_unwind
{
    cursor != NIL && cursor <= capacity as u64 && counted < capacity
}

/// Whether `cursors` are the indices that a walk from `head` over the fixed
/// words `links` meets: slots, each followed by its link, up to an index that is
/// none, or until as many have been met as there are slots.
pub open spec fn walk_over(head: u64, links: Seq<u64>, cursors: Seq<u64>) -> bool {
    &&& 1 <= cursors.len() <= links.len() + 1
    &&& cursors[0] == index_of(head)
    &&& forall|k: int|
        0 <= k < cursors.len() - 1 ==> {
            &&& is_slot(#[trigger] cursors[k] as int, links.len())
            &&& cursors[k + 1] == links[cursors[k] - 1]
        }
    &&& cursors.len() == links.len() + 1 || !is_slot(cursors.last() as int, links.len())
}

} // verus!
