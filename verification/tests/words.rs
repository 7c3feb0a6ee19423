use slab_pool::free_list::{
    first_link, head_after_pop, head_after_push, top_slot, walk_goes_on,
};
use slab_pool::shared::link_position;
use slab_pool::text::decimal_text;
use slab_pool::word::{pack, unpack_idx, unpack_tag, NIL};

#[test]
fn words_hold_an_index_and_a_tag() {
    assert_eq!(pack(1, 0), 0x1_0000_0000);
    assert_eq!(pack(3, 5), 0x3_0000_0005);
    assert_eq!(unpack_idx(0x3_0000_0005), 3);
    assert_eq!(unpack_tag(0x3_0000_0005), 5);
    for (idx, tag) in [(0, 0), (1, 7), (0xFFFF_FFFE, 0xFFFF_FFFF), (0xFFFF_FFFF, 1)] {
        assert_eq!(unpack_idx(pack(idx, tag)), idx);
        assert_eq!(unpack_tag(pack(idx, tag)), tag);
    }
    // Each half keeps what it can hold.
    assert_eq!(pack(0x1_0000_0002, 0x1_0000_0003), pack(2, 3));
    assert_eq!(pack(unpack_idx(u64::MAX), unpack_tag(u64::MAX)), u64::MAX);
}

#[test]
fn every_change_of_the_head_raises_the_tag() {
    assert_eq!(head_after_pop(pack(1, 0), 2), pack(2, 1));
    assert_eq!(head_after_push(pack(2, 1), 1), pack(1, 2));
    assert_eq!(head_after_pop(pack(9, 41), NIL), pack(NIL, 42));
    // The tag comes round after the last one.
    assert_eq!(head_after_pop(pack(4, 0xFFFF_FFFF), 5), pack(5, 0));
    assert_eq!(head_after_push(pack(4, 0xFFFF_FFFF), 6), pack(6, 0));
}

#[test]
fn stale_observation_differs_though_the_slot_is_back_on_top() {
    let observed = pack(3, 5);
    let taken = head_after_pop(observed, 4);
    let back = head_after_push(taken, 3);
    assert_eq!(unpack_idx(back), unpack_idx(observed));
    assert_eq!(unpack_tag(back), 7);
    assert_ne!(back, observed);
}

#[test]
fn top_slot_is_none_past_the_ends() {
    assert_eq!(top_slot(pack(NIL, 8), 4), None);
    assert_eq!(top_slot(pack(1, 8), 4), Some(1));
    assert_eq!(top_slot(pack(4, 8), 4), Some(4));
    assert_eq!(top_slot(pack(5, 8), 4), None);
}

#[test]
fn links_of_a_new_list() {
    let links: Vec<u64> = (1..=4).map(|slot| first_link(slot, 4)).collect();
    assert_eq!(links, vec![2, 3, 4, NIL]);
    assert_eq!(first_link(1, 1), NIL);
    assert_eq!(link_position(1, 4), 0);
    assert_eq!(link_position(4, 4), 3);
}

/// The number of slots that a walk from `cursor` counts, of four.
fn counted(mut cursor: u64, link_of: impl Fn(u64) -> u64) -> u32 {
    let mut count = 0;
    while walk_goes_on(cursor, count, 4) {
        count += 1;
        cursor = link_of(cursor);
    }
    count
}

#[test]
fn counting_walks_the_list() {
    let links: [u64; 4] = [3, NIL, 2, 1];
    let link_of = |slot: u64| links[slot as usize - 1];
    assert_eq!(counted(1, link_of), 3);
    assert_eq!(counted(2, link_of), 1);
    assert_eq!(counted(4, link_of), 4);
    assert_eq!(counted(NIL, link_of), 0);
    // Links that change under the walk cannot keep it going.
    assert_eq!(counted(1, |_| 1), 4);
    assert_eq!(counted(1, |_| 77), 1);
}

#[test]
fn numbers_in_decimal() {
    for n in [0, 7, 9, 10, 42, 99, 100, 4_294_967_294, usize::MAX] {
        assert_eq!(decimal_text(n), format!("{}", n));
    }
}
