//! The packed head word: a slot index in the upper half, a tag in the lower.

use vstd::prelude::*;

verus! {

/// Index that ends the free list. Slots are numbered from one.
pub const NIL: u64 = 0;

/// Number of bits below the slot index in a packed word.
pub const IDX_BITS: u64 = 32;

/// The bits of a packed word that hold the tag.
pub const TAG_MASK: u64 = 0xFFFF_FFFF;

/// How many tags there are, and how many indices.
pub open spec fn half_range() -> int {
    0x1_0000_0000
}

/// The slot index that a packed word carries.
pub open spec fn index_of(packed: u64) -> int {
    packed as int / half_range()
}

/// The tag that a packed word carries.
pub open spec fn tag_of(packed: u64) -> int {
    packed as int % half_range()
}

/// The word that carries `idx` and `tag`, each reduced to its half.
pub open spec fn packed_word(idx: int, tag: int) -> u64 {
    ((idx % half_range()) * half_range() + tag % half_range()) as u64
}

/// Extracts the slot index from a packed head word.
pub fn unpack_idx(packed: u64) -> (idx: u64)
    ensures
        idx == index_of(packed),
    opens_invariants none
    no_unwind
{
    assert(packed >> 32 == packed / 0x1_0000_0000) by (bit_vector);
    packed >> IDX_BITS
}

/// Extracts the tag from a packed head word.
pub fn unpack_tag(packed: u64) -> (tag: u64)
    ensures
        tag == tag_of(packed),
    opens_invariants none
    no_unwind
{
    assert(packed & 0xFFFF_FFFF == packed % 0x1_0000_0000) by (bit_vector);
    packed & TAG_MASK
}

/// Packs a slot index and a tag into one head word.
pub fn pack(idx: u64, tag: u64) -> (packed: u64)
    ensures
        packed == packed_word(idx as int, tag as int),
    opens_invariants none
    no_unwind
{
    assert((idx << 32) | (tag & 0xFFFF_FFFF) == (idx % 0x1_0000_0000) * 0x1_0000_0000 + (tag
        % 0x1_0000_0000)) by (bit_vector);
    (idx << IDX_BITS) | (tag & TAG_MASK)
}

/// Unpacking gives back what was packed, as far as each half can hold it.
pub proof fn law_unpack_pack(idx: int, tag: int)
    ensures
        index_of(packed_word(idx, tag)) == idx % half_range(),
        tag_of(packed_word(idx, tag)) == tag % half_range(),
{
}

/// Packing what was unpacked gives the word back: no two pairs share a word.
pub proof fn law_pack_unpack(packed: u64)
    ensures
        packed_word(index_of(packed), tag_of(packed)) == packed,
        0 <= index_of(packed) < half_range(),
        0 <= tag_of(packed) < half_range(),
{
}

} // verus!
