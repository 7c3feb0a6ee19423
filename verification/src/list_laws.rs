//! What the free list keeps while slots are taken off it and put back.

use vstd::prelude::*;
use vstd::set_lib::{lemma_int_range, lemma_len_subset, set_int_range};

use crate::free_list::{
    chain, free_slots, fresh_head, fresh_links, is_slot, popped_head, pushed_head, threads,
    walk_over,
};
use crate::word::{
    half_range, index_of, law_pack_unpack, law_unpack_pack, packed_word, tag_of, NIL,
};

verus! {

/// The slots of a pool in the order in which a new list holds them.
pub open spec fn slots_in_order(capacity: nat) -> Seq<int> {
    Seq::new(capacity, |i: int| i + 1)
}

/// A list meets no more slots than there are.
pub proof fn law_list_fits(cursor: int, links: Seq<u64>, slots: Seq<int>)
    requires
        threads(cursor, links, slots),
    ensures
        slots.len() <= links.len(),
{
    let numbers = set_int_range(1, links.len() as int + 1);
    lemma_int_range(1, links.len() as int + 1);
    slots.unique_seq_to_set();
    assert(slots.to_set().subset_of(numbers));
    lemma_len_subset(slots.to_set(), numbers);
}

/// A list that ends is the only one that its head and links describe, and a
/// walk with enough fuel meets all of it.
pub proof fn law_walk_meets_list(cursor: int, links: Seq<u64>, slots: Seq<int>, fuel: nat)
    requires
        threads(cursor, links, slots),
        slots.len() <= fuel,
    ensures
        chain(cursor, links, fuel) == slots,
    decreases slots.len(),
{
    if slots.len() > 0 {
        let below = slots.drop_first();
        lemma_below_top(cursor, links, slots);
        law_walk_meets_list(links[cursor - 1] as int, links, below, (fuel - 1) as nat);
        assert(slots == seq![cursor] + below);
    }
}

/// The links below the top slot are a list of the slots below it.
proof fn lemma_below_top(cursor: int, links: Seq<u64>, slots: Seq<int>)
    requires
        threads(cursor, links, slots),
        slots.len() > 0,
    ensures
        threads(links[cursor - 1] as int, links, slots.drop_first()),
{
    let below = slots.drop_first();
    assert(links[slots[0] - 1] == (if 1 < slots.len() {
        slots[1]
    } else {
        NIL as int
    }));
    assert forall|k: int| 0 <= k < below.len() implies {
        &&& is_slot(#[trigger] below[k], links.len())
        &&& links[below[k] - 1] == (if k + 1 < below.len() {
            below[k + 1]
        } else {
            NIL as int
        })
    } by {
        assert(below[k] == slots[k + 1]);
    }
}

/// Writing the link of a slot that is not on a list leaves the list as it was.
pub proof fn law_write_off_list(
    cursor: int,
    links: Seq<u64>,
    slots: Seq<int>,
    slot: int,
    word: u64,
)
    requires
        threads(cursor, links, slots),
        is_slot(slot, links.len()),
        !slots.contains(slot),
    ensures
        threads(cursor, links.update(slot - 1, word), slots),
{
    assert forall|k: int| 0 <= k < slots.len() implies slots[k] != slot by {
        assert(slots.contains(slots[k]));
    }
}

/// Taking the top slot leaves the slots below it, in their order, and raises
/// the tag by one.
pub proof fn law_pop_takes_top(head: u64, links: Seq<u64>)
    requires
        threads(index_of(head), links, free_slots(head, links)),
        free_slots(head, links).len() > 0,
        links.len() < half_range(),
    ensures
        ({
            let top = free_slots(head, links)[0];
            let next = popped_head(head, links[top - 1]);
            &&& index_of(head) == top
            &&& is_slot(top, links.len())
            &&& free_slots(next, links) == free_slots(head, links).drop_first()
            &&& threads(index_of(next), links, free_slots(next, links))
            &&& tag_of(next) == (tag_of(head) + 1) % half_range()
        }),
{
    let slots = free_slots(head, links);
    let top = slots[0];
    let link = links[top - 1];
    let below = slots.drop_first();
    lemma_below_top(index_of(head), links, slots);
    law_unpack_pack(link as int, tag_of(head) + 1);
    if below.len() > 0 {
        assert(is_slot(below[0], links.len()));
    }
    law_list_fits(link as int, links, below);
    law_walk_meets_list(link as int, links, below, links.len());
}

/// Putting back a slot that is not on the list makes it the top slot, leaves
/// those below it in their order, and raises the tag by one.
pub proof fn law_push_puts_on_top(head: u64, links: Seq<u64>, slot: u64)
    requires
        threads(index_of(head), links, free_slots(head, links)),
        is_slot(slot as int, links.len()),
        !free_slots(head, links).contains(slot as int),
        links.len() < half_range(),
        links[slot - 1] == index_of(head),
    ensures
        ({
            let next = pushed_head(head, slot);
            &&& free_slots(next, links) == seq![slot as int] + free_slots(head, links)
            &&& threads(index_of(next), links, free_slots(next, links))
            &&& tag_of(next) == (tag_of(head) + 1) % half_range()
        }),
{
    let slots = free_slots(head, links);
    let grown = seq![slot as int] + slots;
    law_unpack_pack(slot as int, tag_of(head) + 1);
    assert(threads(slot as int, links, grown)) by {
        assert forall|k: int| 0 <= k < grown.len() implies {
            &&& is_slot(#[trigger] grown[k], links.len())
            &&& links[grown[k] - 1] == (if k + 1 < grown.len() {
                grown[k + 1]
            } else {
                NIL as int
            })
        } by {
            if k > 0 {
                assert(grown[k] == slots[k - 1]);
            }
        }
        assert forall|j: int, k: int| 0 <= j < k < grown.len() implies grown[j] != grown[k] by {
            assert(slots.contains(slots[k - 1]));
            if j > 0 {
                assert(grown[j] == slots[j - 1]);
            }
        }
    }
    law_list_fits(slot as int, links, grown);
    law_walk_meets_list(slot as int, links, grown, links.len());
}

/// A new list holds every slot, in order.
pub proof fn law_fresh_list_holds_all(capacity: nat)
    requires
        1 <= capacity < half_range(),
    ensures
        free_slots(fresh_head(), fresh_links(capacity)) == slots_in_order(capacity),
        threads(index_of(fresh_head()), fresh_links(capacity), slots_in_order(capacity)),
        tag_of(fresh_head()) == 0,
{
    let links = fresh_links(capacity);
    let slots = slots_in_order(capacity);
    law_unpack_pack(1, 0);
    assert(threads(1, links, slots));
    law_walk_meets_list(1, links, slots, capacity);
}

/// A walk over fixed words meets the slots on the free list and no others.
pub proof fn law_walk_counts_list(head: u64, links: Seq<u64>, cursors: Seq<u64>)
    requires
        walk_over(head, links, cursors),
    ensures
        cursors.len() == free_slots(head, links).len() + 1,
{
    lemma_rest_of_walk(head, links, cursors, 0);
}

/// What is left of a walk over fixed words after `met` slots.
proof fn lemma_rest_of_walk(head: u64, links: Seq<u64>, cursors: Seq<u64>, met: int)
    requires
        walk_over(head, links, cursors),
        0 <= met < cursors.len(),
    ensures
        chain(cursors[met] as int, links, (links.len() - met) as nat).len() == cursors.len() - 1
            - met,
    decreases cursors.len() - met,
{
    if met < cursors.len() - 1 {
        lemma_rest_of_walk(head, links, cursors, met + 1);
    }
}

/// A slot that is taken and put back is on top again under a tag that is two
/// higher: the head is another word than before.
pub proof fn law_pop_then_push_raises_tag_by_two(head: u64, link: u64)
    ensures
        ({
            let back = pushed_head(popped_head(head, link), index_of(head) as u64);
            &&& back == packed_word(index_of(head), tag_of(head) + 2)
            &&& index_of(back) == index_of(head)
            &&& tag_of(back) == (tag_of(head) + 2) % half_range()
            &&& back != head
        }),
{
    law_pack_unpack(head);
    law_unpack_pack(link as int, tag_of(head) + 1);
    law_unpack_pack(index_of(head), tag_of(popped_head(head, link)) + 1);
    law_unpack_pack(index_of(head), tag_of(head) + 2);
}

} // verus!
