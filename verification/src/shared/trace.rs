//! What the calls of a pool do to its shared words, access by access.
//!
//! A change of the head is a number of tries and then a swap. Each try loads the
//! head and then reads or writes one link word. Every try but the last is made
//! in vain: the head that it loaded was gone by the time of its swap.

use vstd::prelude::*;

use super::atom::{Access, SharedWord};
use crate::free_list::{is_slot, Request};
use crate::word::index_of;

verus! {

/// Whether `word` is what the link word that `request` is about held or was
/// made to hold, when the head was observed to be `observed`: where a slot is
/// taken, it was read from the link of that slot, and where one is put back, its
/// link was made to lead to what `observed` names.
pub open spec fn touched(
    links: Seq<SharedWord>,
    request: Request,
    observed: u64,
    word: u64,
) -> bool {
    let link = links[request.link_slot(observed) - 1];
    match request {
        Request::Pop => link.read().contains(word) && link.in_turn().contains(word),
        Request::Push { .. } => link.in_turn().contains(word) && word == index_of(observed),
    }
}

/// The access to the link word that `request` is about.
pub open spec fn link_access(
    links: Seq<SharedWord>,
    request: Request,
    observed: u64,
    word: u64,
) -> Access {
    let link = links[request.link_slot(observed) - 1];
    match request {
        Request::Pop => Access::Load { word: link, value: word },
        Request::Push { .. } => Access::Store { word: link, value: word },
    }
}

/// Whether `request` can have been tried on each of the observed heads `seen`,
/// with `words` read from or written to the link words.
pub open spec fn tried(
    links: Seq<SharedWord>,
    request: Request,
    seen: Seq<u64>,
    words: Seq<u64>,
) -> bool {
    &&& seen.len() == words.len()
    &&& forall|j: int|
        0 <= j < seen.len() ==> {
            &&& request.accepts(#[trigger] seen[j], links.len())
            &&& touched(links, request, seen[j], words[j])
        }
}

/// The accesses of as many tries as there are `seen`: each loads the head and
/// then reads or writes a link word.
pub open spec fn tries(
    head: SharedWord,
    links: Seq<SharedWord>,
    request: Request,
    seen: Seq<u64>,
    words: Seq<u64>,
) -> Seq<Access> {
    Seq::new(
        2 * seen.len(),
        |k: int|
            if k % 2 == 0 {
                Access::Load { word: head, value: seen[k / 2] }
            } else {
                link_access(links, request, seen[k / 2], words[k / 2])
            },
    )
}

/// Whether `observed` and `value` are values that `word` takes one right after
/// the other.
pub open spec fn replaced(word: SharedWord, observed: u64, value: u64) -> bool {
    exists|k: int|
        0 <= k < word.in_turn().len() - 1 && #[trigger] word.in_turn()[k] == observed
            && word.in_turn()[k + 1] == value
}

/// Whether `request` was granted on the last of the observed heads `seen`, and a
/// log that held `before` holds `after`: to it were added the tries, and then
/// one swap of the head.
pub open spec fn changed(
    head: SharedWord,
    links: Seq<SharedWord>,
    request: Request,
    before: Seq<Access>,
    after: Seq<Access>,
    seen: Seq<u64>,
    words: Seq<u64>,
) -> bool {
    let observed = seen.last();
    let value = request.new_head(observed, words.last());
    &&& seen.len() > 0
    &&& tried(links, request, seen, words)
    &&& replaced(head, observed, value)
    &&& after == (before + tries(head, links, request, seen, words)).push(
        Access::Swap { word: head, observed, value },
    )
}

/// Whether `request` was refused on the last of the observed heads `seen`, and a
/// log that held `before` holds `after`: to it were added the tries in vain, and
/// then the load on which the request was refused.
pub open spec fn refused(
    head: SharedWord,
    links: Seq<SharedWord>,
    request: Request,
    before: Seq<Access>,
    after: Seq<Access>,
    seen: Seq<u64>,
    words: Seq<u64>,
) -> bool {
    let observed = seen.last();
    &&& seen.len() > 0
    &&& tried(links, request, seen.drop_last(), words)
    &&& head.in_turn().contains(observed)
    &&& !request.accepts(observed, links.len())
    &&& after == (before + tries(head, links, request, seen.drop_last(), words)).push(
        Access::Load { word: head, value: observed },
    )
}

/// Whether a log shows that `slot` was taken off the free list, and nothing else
/// was changed.
pub open spec fn took(
    head: SharedWord,
    links: Seq<SharedWord>,
    before: Seq<Access>,
    after: Seq<Access>,
    slot: int,
) -> bool {
    exists|seen: Seq<u64>, words: Seq<u64>| #[trigger]
        changed(head, links, Request::Pop, before, after, seen, words) && index_of(seen.last())
            == slot
}

/// Whether a log shows that a head was found to name no slot, and nothing was
/// changed.
pub open spec fn turned_away(
    head: SharedWord,
    links: Seq<SharedWord>,
    before: Seq<Access>,
    after: Seq<Access>,
) -> bool {
    exists|seen: Seq<u64>, words: Seq<u64>| #[trigger]
        refused(head, links, Request::Pop, before, after, seen, words)
}

/// Whether a log shows that `slot` was put on top of the free list, and no link
/// but its own was written.
pub open spec fn gave_back(
    head: SharedWord,
    links: Seq<SharedWord>,
    before: Seq<Access>,
    after: Seq<Access>,
    slot: u64,
) -> bool {
    exists|seen: Seq<u64>, words: Seq<u64>| #[trigger]
        changed(head, links, Request::Push { slot }, before, after, seen, words)
}

/// Whether a walk that observed `head` can have met `cursors`: slots, each
/// followed by what was read from its link, up to an index that is no slot, or
/// until as many have been met as there are slots.
pub open spec fn walked(links: Seq<SharedWord>, head: u64, cursors: Seq<u64>) -> bool {
    &&& 1 <= cursors.len() <= links.len() + 1
    &&& cursors[0] == index_of(head)
    &&& forall|k: int|
        0 <= k < cursors.len() - 1 ==> {
            &&& is_slot(#[trigger] cursors[k] as int, links.len())
            &&& links[cursors[k] - 1].read().contains(cursors[k + 1])
        }
    &&& cursors.len() == links.len() + 1 || !is_slot(cursors.last() as int, links.len())
}

/// The accesses of a walk that met `cursors`: one load for each slot, of its
/// link.
pub open spec fn walk_loads(links: Seq<SharedWord>, cursors: Seq<u64>) -> Seq<Access> {
    Seq::new(
        (cursors.len() - 1) as nat,
        |k: int| Access::Load { word: links[cursors[k] - 1], value: cursors[k + 1] },
    )
}

/// Whether a log shows that the free list was walked from a head that was
/// loaded, that the walk met `free` slots, and that nothing was changed.
pub open spec fn counted(
    head: SharedWord,
    links: Seq<SharedWord>,
    before: Seq<Access>,
    after: Seq<Access>,
    free: int,
) -> bool {
    exists|observed: u64, cursors: Seq<u64>| #[trigger]
        walked(links, observed, cursors) && free == cursors.len() - 1 && after == before.push(
            Access::Load { word: head, value: observed },
        ) + walk_loads(links, cursors)
}

} // verus!
