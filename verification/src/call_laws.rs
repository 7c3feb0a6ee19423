//! What the logs of a pool's calls mean for the machine of its clients.
//!
//! A call is a client of a [`Machine`]: each access that its log shows is one
//! action of that client. The laws here take a log apart, put each access at the
//! moment of a machine at which it was made, and find the client where the call
//! is. Between two accesses of the call the machine may go on in any way that
//! leaves this client where it is.

use vstd::prelude::*;

use crate::error::{SlabPoolError, MAX_SLOTS};
use crate::free_list::{free_slots, is_slot, walk_over, Request};
use crate::list_laws::law_walk_counts_list;
use crate::machine::{give_back, give_up, take, Action, Client, Machine};
use crate::machine_laws::{
    law_action_keeps_sound, law_fresh_pool_hands_out_in_order, law_give_back_puts_on_top,
    law_live_plus_free_is_capacity, law_push_swap_puts_on_top, law_refusal_means_exhaustion, law_slots_are_exclusive,
    law_swap_takes_top, law_take_from_exhausted_pool_fails, law_take_gets_top, lemma_three_steps,
};
use crate::pool::SlabPool;
use crate::shared::trace::{
    changed, counted, gave_back, refused, took, tried, tries, turned_away, walk_loads, walked,
};
use crate::shared::{Access, SharedWord};
use crate::word::{half_range, index_of, law_unpack_pack, tag_of};

verus! {

/// A taken or given slot is one swap in the log: it is of the head and the last
/// access of the call. Before it the call has loaded the head, and read links
/// where a slot is taken, and written its own link where one is given back.
pub proof fn law_change_is_one_swap(
    head: SharedWord,
    links: Seq<SharedWord>,
    request: Request,
    before: Seq<Access>,
    after: Seq<Access>,
    seen: Seq<u64>,
    words: Seq<u64>,
)
    requires
        changed(head, links, request, before, after, seen, words),
    ensures
        after.len() > before.len(),
        after.take(before.len() as int) == before,
        after.last() == (Access::Swap {
            word: head,
            observed: seen.last(),
            value: request.new_head(seen.last(), words.last()),
        }),
        forall|k: int|
            before.len() <= k < after.len() - 1 ==> match #[trigger] after[k] {
                Access::Load { .. } => true,
                Access::Store { word, .. } => request matches Request::Push { slot } && word
                    == links[slot - 1],
                Access::Swap { .. } => false,
            },
{
    assert(after.take(before.len() as int) =~= before);
}

/// A call that takes a slot makes one swap, of the head and last of all. All
/// that it does before is to load the head and the link that the head leads to,
/// by turns.
pub proof fn law_taking_is_one_swap(
    head: SharedWord,
    links: Seq<SharedWord>,
    before: Seq<Access>,
    after: Seq<Access>,
    slot: int,
)
    requires
        took(head, links, before, after, slot),
    ensures
        after.len() >= before.len() + 3,
        (after.len() - before.len()) % 2 == 1,
        after.take(before.len() as int) == before,
        after.last() matches Access::Swap { word, observed, .. } && word == head && index_of(
            observed,
        ) == slot,
        forall|k: int|
            before.len() <= k < after.len() - 1 ==> #[trigger] after[k] is Load,
        after[after.len() - 3] matches Access::Load { word, value } && word == head && index_of(
            value,
        ) == slot,
        after[after.len() - 2] matches Access::Load { word, .. } && word == links[slot - 1],
{
    let (seen, words) = choose|seen: Seq<u64>, words: Seq<u64>| #[trigger]
        changed(head, links, Request::Pop, before, after, seen, words) && index_of(seen.last())
            == slot;
    law_change_is_one_swap(head, links, Request::Pop, before, after, seen, words);
    let n = seen.len();
    let made = tries(head, links, Request::Pop, seen, words);
    assert(after[after.len() - 2] == made[2 * n - 1]);
    assert(after[after.len() - 3] == made[2 * n - 2]);
    assert((2 * n - 1) / 2 == n - 1 && (2 * n - 2) / 2 == n - 1);
}

/// A call that gives a slot back makes one swap, of the head and last of all.
/// All that it does before is to load the head and to write the link of that
/// slot, by turns.
pub proof fn law_giving_is_one_swap(
    head: SharedWord,
    links: Seq<SharedWord>,
    before: Seq<Access>,
    after: Seq<Access>,
    slot: u64,
)
    requires
        gave_back(head, links, before, after, slot),
        is_slot(slot as int, links.len()),
        slot < half_range(),
    ensures
        after.len() >= before.len() + 3,
        (after.len() - before.len()) % 2 == 1,
        after.take(before.len() as int) == before,
        after.last() matches Access::Swap { word, value, .. } && word == head && index_of(value)
            == slot,
        forall|k: int|
            before.len() <= k < after.len() - 1 ==> match #[trigger] after[k] {
                Access::Load { word, .. } => word == head,
                Access::Store { word, .. } => word == links[slot - 1],
                Access::Swap { .. } => false,
            },
        after[after.len() - 3] matches Access::Load { word, value } && word == head && after[
            after.len() - 2] == (Access::Store {
            word: links[slot - 1],
            value: index_of(value) as u64,
        }),
{
    let request = Request::Push { slot };
    let (seen, words) = choose|seen: Seq<u64>, words: Seq<u64>| #[trigger]
        changed(head, links, request, before, after, seen, words);
    law_change_is_one_swap(head, links, request, before, after, seen, words);
    let n = seen.len();
    let made = tries(head, links, request, seen, words);
    assert(after[after.len() - 2] == made[2 * n - 1]);
    assert(after[after.len() - 3] == made[2 * n - 2]);
    assert((2 * n - 1) / 2 == n - 1 && (2 * n - 2) / 2 == n - 1);
    law_unpack_pack(slot as int, tag_of(seen.last()) + 1);
    assert forall|k: int| before.len() <= k < after.len() - 1 implies match #[trigger] after[k] {
        Access::Load { word, .. } => word == head,
        Access::Store { word, .. } => word == links[slot - 1],
        Access::Swap { .. } => false,
    } by {
        assert(after[k] == made[k - before.len()]);
    }
}

/// A call that is turned away has loaded words and changed none.
pub proof fn law_refusal_changes_nothing(
    head: SharedWord,
    links: Seq<SharedWord>,
    before: Seq<Access>,
    after: Seq<Access>,
)
    requires
        turned_away(head, links, before, after),
    ensures
        after.len() > before.len(),
        after.take(before.len() as int) == before,
        forall|k: int| before.len() <= k < after.len() ==> #[trigger] after[k] is Load,
{
    assert(after.take(before.len() as int) =~= before);
}

/// Counting the free slots loads words and changes none.
pub proof fn law_counting_changes_nothing(
    head: SharedWord,
    links: Seq<SharedWord>,
    before: Seq<Access>,
    after: Seq<Access>,
    free: int,
)
    requires
        counted(head, links, before, after, free),
    ensures
        after.len() == before.len() + 1 + free,
        after.take(before.len() as int) == before,
        forall|k: int| before.len() <= k < after.len() ==> #[trigger] after[k] is Load,
{
    assert(after.take(before.len() as int) =~= before);
}

/// Whether the accesses that were added to a log found in `head` and `links`
/// what `m` holds there.
pub open spec fn finds(
    m: Machine,
    head: SharedWord,
    links: Seq<SharedWord>,
    before: Seq<Access>,
    after: Seq<Access>,
) -> bool {
    forall|k: int|
        before.len() <= k < after.len() ==> match #[trigger] after[k] {
            Access::Load { word, value } => {
                &&& word == head ==> value == m.head
                &&& forall|p: int|
                    0 <= p < m.capacity() && word == #[trigger] links[p] ==> value == m.links[p]
            },
            Access::Swap { word, observed, .. } => word == head ==> observed == m.head,
            Access::Store { .. } => true,
        }
}

/// A call that takes a slot undisturbed takes the top one, and swaps in the head
/// of the machine whose client has taken a slot.
pub proof fn law_undisturbed_take(
    m: Machine,
    i: int,
    head: SharedWord,
    links: Seq<SharedWord>,
    before: Seq<Access>,
    after: Seq<Access>,
    slot: int,
)
    requires
        m.sound(),
        0 <= i < m.clients.len(),
        m.clients[i] is Idle,
        links.len() == m.capacity(),
        took(head, links, before, after, slot),
        finds(m, head, links, before, after),
    ensures
        m.free().len() > 0,
        slot == m.free()[0],
        m.can_run(take(i)),
        m.run(take(i)).owns(i, slot),
        after.last() == (Access::Swap {
            word: head,
            observed: m.head,
            value: m.run(take(i)).head,
        }),
{
    let (seen, words) = choose|seen: Seq<u64>, words: Seq<u64>| #[trigger]
        changed(head, links, Request::Pop, before, after, seen, words) && index_of(seen.last())
            == slot;
    let n = seen.len();
    let link = after[after.len() - 2];
    assert(link == tries(head, links, Request::Pop, seen, words)[2 * n - 1]);
    assert((2 * n - 1) / 2 == n - 1);
    assert(link == (Access::Load { word: links[slot - 1], value: words.last() }));
    assert(after.last() is Swap);
    assert(seen.last() == m.head);
    assert(words.last() == m.links[slot - 1]);
    law_refusal_means_exhaustion(m);
    law_take_gets_top(m, i);
    lemma_three_steps(m, (i, Action::Observe), (i, Action::ReadLink), (i, Action::Swap));
}

/// A call that is turned away undisturbed finds all slots owned, and leaves the
/// machine as a client does that gives up. One load of the head is all that it
/// does: it does not look again.
pub proof fn law_undisturbed_refusal(
    m: Machine,
    i: int,
    head: SharedWord,
    links: Seq<SharedWord>,
    before: Seq<Access>,
    after: Seq<Access>,
)
    requires
        m.sound(),
        0 <= i < m.clients.len(),
        m.clients[i] is Idle,
        links.len() == m.capacity(),
        turned_away(head, links, before, after),
        finds(m, head, links, before, after),
    ensures
        m.live() == m.capacity(),
        m.can_run(give_up(i)),
        m.run(give_up(i)) == m,
        after == before.push(Access::Load { word: head, value: m.head }),
{
    let (seen, words) = choose|seen: Seq<u64>, words: Seq<u64>| #[trigger]
        refused(head, links, Request::Pop, before, after, seen, words);
    assert(after.last() is Load);
    assert(seen.last() == m.head);
    law_refusal_means_exhaustion(m);
    law_take_from_exhausted_pool_fails(m, i);
    if words.len() > 0 {
        assert(seen.drop_last()[0] == seen[0]);
        assert(after[before.len() as int] == (Access::Load { word: head, value: seen[0] }));
        assert(seen[0] == m.head);
    }
    assert(after =~= before.push(Access::Load { word: head, value: m.head }));
}

/// A call that gives a slot back undisturbed writes the words of the machine
/// whose client has given it back: the link of the slot and then the head.
pub proof fn law_undisturbed_return(
    m: Machine,
    i: int,
    head: SharedWord,
    links: Seq<SharedWord>,
    before: Seq<Access>,
    after: Seq<Access>,
    slot: u64,
)
    requires
        m.sound(),
        0 <= i < m.clients.len(),
        m.clients[i] == (Client::Holding { slot }),
        links.len() == m.capacity(),
        gave_back(head, links, before, after, slot),
        finds(m, head, links, before, after),
    ensures
        m.can_run(give_back(i)),
        m.run(give_back(i)).free() == seq![slot as int] + m.free(),
        m.run(give_back(i)).links == m.links.update(
            slot - 1,
            m.run(give_back(i)).links[slot - 1],
        ),
        after.len() >= before.len() + 2,
        after[after.len() - 2] == (Access::Store {
            word: links[slot - 1],
            value: m.run(give_back(i)).links[slot - 1],
        }),
        after.last() == (Access::Swap {
            word: head,
            observed: m.head,
            value: m.run(give_back(i)).head,
        }),
{
    let request = Request::Push { slot };
    let (seen, words) = choose|seen: Seq<u64>, words: Seq<u64>| #[trigger]
        changed(head, links, request, before, after, seen, words);
    let n = seen.len();
    assert(after[after.len() - 2] == tries(head, links, request, seen, words)[2 * n - 1]);
    assert((2 * n - 1) / 2 == n - 1);
    assert(after.last() is Swap);
    assert(seen.last() == m.head);
    assert(m.client_ok(m.clients[i]));
    law_give_back_puts_on_top(m, i);
    lemma_three_steps(m, (i, Action::Observe), (i, Action::WriteLink), (i, Action::Swap));
    assert(m.run(give_back(i)).links =~= m.links.update(slot - 1, index_of(m.head) as u64));
}

/// What `word` holds after the accesses `made`, where these are all accesses to
/// it since it was made.
pub open spec fn held(word: SharedWord, made: Seq<Access>) -> u64
    decreases made.len(),
{
    if made.len() == 0 {
        word.initial()
    } else {
        let (earlier, last) = (held(word, made.drop_last()), made.last());
        match last {
            Access::Load { .. } => earlier,
            Access::Store { word: written, value } => if written == word {
                value
            } else {
                earlier
            },
            Access::Swap { word: written, value, .. } => if written == word {
                value
            } else {
                earlier
            },
        }
    }
}

/// Whether none of the accesses `made` changes a word of `words`.
pub open spec fn leaves_alone(words: Seq<SharedWord>, made: Seq<Access>) -> bool {
    forall|k: int|
        0 <= k < made.len() ==> match #[trigger] made[k] {
            Access::Load { .. } => true,
            Access::Store { word, .. } => !words.contains(word),
            Access::Swap { word, .. } => !words.contains(word),
        }
}

/// A word holds what it was made with while nothing changes it.
proof fn lemma_held_while_left_alone(words: Seq<SharedWord>, word: SharedWord, made: Seq<Access>)
    requires
        words.contains(word),
        leaves_alone(words, made),
    ensures
        held(word, made) == word.initial(),
    decreases made.len(),
{
    if made.len() > 0 {
        assert(made.last() == made[made.len() - 1]);
        lemma_held_while_left_alone(words, word, made.drop_last());
    }
}

/// Making a pool of a number of slots succeeds if the number can be addressed
/// and is not zero. Until an access changes one of its words, and making it is
/// no access, it has each of its slots free, once: the first on top and the
/// others in order below it.
pub proof fn law_new_pool_is_all_free<T>(
    capacity: usize,
    outcome: Result<SlabPool<T>, SlabPoolError>,
    made: Seq<Access>,
)
    requires
        call_ensures(SlabPool::<T>::new, (capacity,), outcome),
        outcome matches Ok(pool) ==> leaves_alone(
            pool.link_words().push(pool.head_word()),
            made,
        ),
    ensures
        outcome is Ok <==> 1 <= capacity <= MAX_SLOTS,
        outcome matches Ok(pool) ==> ({
            let head = held(pool.head_word(), made);
            let links = pool.link_words().map_values(|word: SharedWord| held(word, made));
            &&& pool.slot_count() == capacity
            &&& pool.link_words().len() == capacity
            &&& free_slots(head, links).len() == capacity
            &&& forall|k: int|
                0 <= k < capacity ==> #[trigger] free_slots(head, links)[k] == k + 1
        }),
{
    if let Ok(pool) = outcome {
        let words = pool.link_words().push(pool.head_word());
        let links = pool.link_words().map_values(|word: SharedWord| held(word, made));
        assert(words[words.len() - 1] == pool.head_word());
        lemma_held_while_left_alone(words, pool.head_word(), made);
        assert forall|k: int| 0 <= k < links.len() implies links[k] == pool.initial_links()[k] by {
            assert(words[k] == pool.link_words()[k]);
            lemma_held_while_left_alone(words, pool.link_words()[k], made);
        }
        assert(links =~= pool.initial_links());
        assert(pool.initial_links().len() == capacity);
    }
}

/// The clients of a new pool that take slots one after the other get the slots
/// one, two and so on, up to the last.
pub proof fn law_new_pool_serves_in_order(
    capacity: nat,
    clients: nat,
    taken: nat,
    head: SharedWord,
    links: Seq<SharedWord>,
    before: Seq<Access>,
    after: Seq<Access>,
    slot: int,
)
    requires
        1 <= capacity <= MAX_SLOTS,
        taken <= capacity,
        taken < clients,
        links.len() == capacity,
        took(head, links, before, after, slot),
        finds(Machine::filled(capacity, clients, taken), head, links, before, after),
    ensures
        taken < capacity,
        slot == taken + 1,
{
    law_fresh_pool_hands_out_in_order(capacity, clients, taken);
    let m = Machine::filled(capacity, clients, taken);
    law_undisturbed_take(m, taken as int, head, links, before, after, slot);
}

/// A client of a new pool is turned away only when as many slots have been taken
/// as the pool was asked for.
pub proof fn law_new_pool_serves_all(
    capacity: nat,
    clients: nat,
    taken: nat,
    head: SharedWord,
    links: Seq<SharedWord>,
    before: Seq<Access>,
    after: Seq<Access>,
)
    requires
        1 <= capacity <= MAX_SLOTS,
        taken <= capacity,
        taken < clients,
        links.len() == capacity,
        turned_away(head, links, before, after),
        finds(Machine::filled(capacity, clients, taken), head, links, before, after),
    ensures
        taken == capacity,
{
    law_fresh_pool_hands_out_in_order(capacity, clients, taken);
    let m = Machine::filled(capacity, clients, taken);
    law_undisturbed_refusal(m, taken as int, head, links, before, after);
    law_live_plus_free_is_capacity(m);
}

/// The statistics of a new pool count as free what has not been taken: all slots
/// at first, and one fewer for each that is taken.
pub proof fn law_new_pool_counts_down(
    capacity: nat,
    clients: nat,
    taken: nat,
    head: SharedWord,
    links: Seq<SharedWord>,
    before: Seq<Access>,
    after: Seq<Access>,
    free: int,
)
    requires
        1 <= capacity <= MAX_SLOTS,
        taken <= capacity,
        taken <= clients,
        links.len() == capacity,
        counted(head, links, before, after, free),
        finds(Machine::filled(capacity, clients, taken), head, links, before, after),
    ensures
        free == capacity - taken,
{
    law_fresh_pool_hands_out_in_order(capacity, clients, taken);
    law_stats_are_exact_at_rest(
        Machine::filled(capacity, clients, taken),
        head,
        links,
        before,
        after,
        free,
    );
}

/// What a client does to load the head: it observes it for the first time, or
/// its swap fails, which observes the head anew.
pub open spec fn head_action(first: bool) -> Action {
    if first {
        Action::Observe
    } else {
        Action::SwapFailsAnyway
    }
}

/// What a client does to the link word that `request` is about.
pub open spec fn link_action(request: Request) -> Action {
    match request {
        Request::Pop => Action::ReadLink,
        Request::Push { .. } => Action::WriteLink,
    }
}

/// Where the client stands that is about to make `request`.
pub open spec fn asking(request: Request) -> Client {
    match request {
        Request::Pop => Client::Idle,
        Request::Push { slot } => Client::Holding { slot },
    }
}

/// Whether the `j`th try of `request` by client `i` loads the head at one moment
/// and touches the link at another, and the client does nothing in between nor
/// up to its next access to the head: each access finds what the machine holds.
pub open spec fn try_made(
    request: Request,
    i: int,
    seen: Seq<u64>,
    words: Seq<u64>,
    at_heads: Seq<Machine>,
    at_links: Seq<Machine>,
    j: int,
) -> bool {
    let (at_head, at_link, next) = (at_heads[j], at_links[j], at_heads[j + 1]);
    &&& 0 <= i < at_link.clients.len()
    &&& 0 <= i < next.clients.len()
    &&& at_link.capacity() == at_head.capacity()
    &&& next.capacity() == at_head.capacity()
    &&& at_head.head == seen[j]
    &&& at_link.clients[i] == at_head.after(i, head_action(j == 0)).clients[i]
    &&& request is Pop ==> at_link.links[index_of(seen[j]) - 1] == words[j]
    &&& next.clients[i] == at_link.after(i, link_action(request)).clients[i]
}

/// Whether tries of `request` by client `i` that observed `seen` and met `words`
/// are made at the moments `at_heads` and `at_links`. The last of `at_heads` is
/// the moment of the access to the head that follows the tries.
pub open spec fn tries_made(
    request: Request,
    i: int,
    capacity: nat,
    seen: Seq<u64>,
    words: Seq<u64>,
    at_heads: Seq<Machine>,
    at_links: Seq<Machine>,
) -> bool {
    &&& at_heads.len() == words.len() + 1
    &&& at_links.len() == words.len()
    &&& 0 <= i < at_heads[0].clients.len()
    &&& at_heads[0].capacity() == capacity
    &&& at_heads[0].clients[i] == asking(request)
    &&& forall|j: int|
        0 <= j < words.len() ==> #[trigger] try_made(
            request,
            i,
            seen,
            words,
            at_heads,
            at_links,
            j,
        )
}

/// Whether both accesses of the `j`th try of `request` by client `i` are actions
/// that the machine can make and that do to its words what the accesses do: the
/// load of the head changes none, and the other changes none or writes `words`
/// to the link.
pub open spec fn try_acted(
    request: Request,
    i: int,
    words: Seq<u64>,
    at_heads: Seq<Machine>,
    at_links: Seq<Machine>,
    j: int,
) -> bool {
    let observed = at_heads[j].after(i, head_action(j == 0));
    let linked = at_links[j].after(i, link_action(request));
    &&& at_heads[j].enabled(i, head_action(j == 0))
    &&& observed.head == at_heads[j].head
    &&& observed.links == at_heads[j].links
    &&& at_links[j].enabled(i, link_action(request))
    &&& linked.head == at_links[j].head
    &&& linked.links == match request {
        Request::Pop => at_links[j].links,
        Request::Push { slot } => at_links[j].links.update(slot - 1, words[j]),
    }
}

/// Where a client stands after the first `j` tries of `request` that observed
/// `seen` and met `words`.
pub open spec fn stands(
    client: Client,
    request: Request,
    seen: Seq<u64>,
    words: Seq<u64>,
    j: int,
) -> bool {
    if j == 0 {
        client == asking(request)
    } else {
        match request {
            Request::Pop => client matches Client::PopLinked { observed, link, .. } && observed
                == seen[j - 1] && link == words[j - 1],
            Request::Push { slot } => client matches Client::PushLinked {
                slot: own,
                observed,
                ..
            } && own == slot && observed == seen[j - 1],
        }
    }
}

/// After its first `j` tries the client stands where the log says, and each of
/// them is a load of the head and an access to a link that the machine can make.
proof fn lemma_tries_are_actions(
    links: Seq<SharedWord>,
    request: Request,
    i: int,
    seen: Seq<u64>,
    words: Seq<u64>,
    at_heads: Seq<Machine>,
    at_links: Seq<Machine>,
    j: int,
)
    requires
        tried(links, request, seen, words),
        tries_made(request, i, links.len(), seen, words, at_heads, at_links),
        0 <= j <= words.len(),
    ensures
        0 <= i < at_heads[j].clients.len(),
        at_heads[j].capacity() == links.len(),
        stands(at_heads[j].clients[i], request, seen, words, j),
        forall|t: int|
            0 <= t < j ==> #[trigger] try_acted(request, i, words, at_heads, at_links, t),
    decreases j,
{
    if j > 0 {
        let t = j - 1;
        lemma_tries_are_actions(links, request, i, seen, words, at_heads, at_links, t);
        assert(try_made(request, i, seen, words, at_heads, at_links, t));
        assert(request.accepts(seen[t], links.len()));
    }
}

/// However the other clients interleave with it, each access that a call makes
/// to change the head is an action of its client that the machine can make, and
/// its swap does to the machine what the log says: it replaces the head that the
/// call observed last, and gives the slot to the client or takes it from it.
pub proof fn law_change_is_actions(
    head: SharedWord,
    links: Seq<SharedWord>,
    request: Request,
    before: Seq<Access>,
    after: Seq<Access>,
    seen: Seq<u64>,
    words: Seq<u64>,
    i: int,
    at_heads: Seq<Machine>,
    at_links: Seq<Machine>,
)
    requires
        changed(head, links, request, before, after, seen, words),
        tries_made(request, i, links.len(), seen, words, at_heads, at_links),
        at_heads.last().head == seen.last(),
    ensures
        forall|j: int|
            0 <= j < seen.len() ==> #[trigger] try_acted(
                request,
                i,
                words,
                at_heads,
                at_links,
                j,
            ),
        at_heads.last().enabled(i, Action::Swap),
        at_heads.last().capacity() == links.len(),
        at_heads.last().observation(i) matches Some((observed, _)) && observed == seen.last(),
        after.last() == (Access::Swap {
            word: head,
            observed: at_heads.last().head,
            value: at_heads.last().after(i, Action::Swap).head,
        }),
        at_heads.last().after(i, Action::Swap).links == at_heads.last().links,
        at_heads.last().after(i, Action::Swap).clients == at_heads.last().clients.update(
            i,
            match request {
                Request::Pop => Client::Holding { slot: index_of(seen.last()) as u64 },
                Request::Push { .. } => Client::Idle,
            },
        ),
{
    lemma_tries_are_actions(
        links,
        request,
        i,
        seen,
        words,
        at_heads,
        at_links,
        words.len() as int,
    );
}

/// However the other clients interleave with it, a call that takes a slot takes
/// the one that is on top of the free list at the moment of its swap. Nobody
/// owned it then, and from then on the client does.
pub proof fn law_taken_slot_was_top(
    head: SharedWord,
    links: Seq<SharedWord>,
    before: Seq<Access>,
    after: Seq<Access>,
    seen: Seq<u64>,
    words: Seq<u64>,
    i: int,
    at_heads: Seq<Machine>,
    at_links: Seq<Machine>,
)
    requires
        changed(head, links, Request::Pop, before, after, seen, words),
        tries_made(Request::Pop, i, links.len(), seen, words, at_heads, at_links),
        at_heads.last().head == seen.last(),
        at_heads.last().sound(),
        at_heads.last().in_time(i),
    ensures
        ({
            let m = at_heads.last();
            let slot = index_of(seen.last());
            &&& m.free().len() > 0
            &&& slot == m.free()[0]
            &&& forall|j: int| !#[trigger] m.owns(j, slot)
            &&& m.after(i, Action::Swap).sound()
            &&& m.after(i, Action::Swap).owns(i, slot)
            &&& m.after(i, Action::Swap).free() == m.free().drop_first()
        }),
{
    law_change_is_actions(
        head,
        links,
        Request::Pop,
        before,
        after,
        seen,
        words,
        i,
        at_heads,
        at_links,
    );
    lemma_tries_are_actions(
        links,
        Request::Pop,
        i,
        seen,
        words,
        at_heads,
        at_links,
        words.len() as int,
    );
    let m = at_heads.last();
    law_refusal_means_exhaustion(m);
    law_swap_takes_top(m, i);
    law_action_keeps_sound(m, i, Action::Swap);
    assert forall|j: int| !#[trigger] m.owns(j, index_of(seen.last())) by {
        if m.owns(j, index_of(seen.last())) {
            law_slots_are_exclusive(m, j, j, index_of(seen.last()));
            assert(m.free().contains(m.free()[0]));
        }
    }
}

/// However the other clients interleave with it, a call that gives a slot back
/// puts it on top of the slots that are free at the moment of its swap.
pub proof fn law_given_slot_is_top(
    head: SharedWord,
    links: Seq<SharedWord>,
    before: Seq<Access>,
    after: Seq<Access>,
    slot: u64,
    seen: Seq<u64>,
    words: Seq<u64>,
    i: int,
    at_heads: Seq<Machine>,
    at_links: Seq<Machine>,
)
    requires
        changed(head, links, Request::Push { slot }, before, after, seen, words),
        tries_made(Request::Push { slot }, i, links.len(), seen, words, at_heads, at_links),
        at_heads.last().head == seen.last(),
        at_heads.last().sound(),
    ensures
        ({
            let m = at_heads.last();
            &&& m.owns(i, slot as int)
            &&& m.after(i, Action::Swap).sound()
            &&& m.after(i, Action::Swap).clients[i] is Idle
            &&& m.after(i, Action::Swap).free() == seq![slot as int] + m.free()
        }),
{
    lemma_tries_are_actions(
        links,
        Request::Push { slot },
        i,
        seen,
        words,
        at_heads,
        at_links,
        words.len() as int,
    );
    law_push_swap_puts_on_top(at_heads.last(), i);
}

/// However the other clients interleave with it, a call that is turned away
/// finds all slots owned at the moment of its last load.
pub proof fn law_refused_means_exhaustion(
    head: SharedWord,
    links: Seq<SharedWord>,
    before: Seq<Access>,
    after: Seq<Access>,
    seen: Seq<u64>,
    words: Seq<u64>,
    i: int,
    at_heads: Seq<Machine>,
    at_links: Seq<Machine>,
)
    requires
        refused(head, links, Request::Pop, before, after, seen, words),
        tries_made(Request::Pop, i, links.len(), seen.drop_last(), words, at_heads, at_links),
        at_heads.last().head == seen.last(),
        at_heads.last().sound(),
    ensures
        ({
            let m = at_heads.last();
            let action = head_action(words.len() == 0);
            &&& m.live() == m.capacity()
            &&& m.enabled(i, action)
            &&& m.after(i, action).enabled(i, Action::Refuse)
            &&& m.after(i, action).after(i, Action::Refuse).clients[i] is Idle
            &&& m.after(i, action).after(i, Action::Refuse).head == m.head
            &&& m.after(i, action).after(i, Action::Refuse).links == m.links
        }),
{
    lemma_tries_are_actions(
        links,
        Request::Pop,
        i,
        seen.drop_last(),
        words,
        at_heads,
        at_links,
        words.len() as int,
    );
    law_refusal_means_exhaustion(at_heads.last());
}

/// While no client acts, the count of a call is the number of slots that nobody
/// owns: statistics of a pool at rest are exact.
pub proof fn law_stats_are_exact_at_rest(
    m: Machine,
    head: SharedWord,
    links: Seq<SharedWord>,
    before: Seq<Access>,
    after: Seq<Access>,
    free: int,
)
    requires
        m.sound(),
        links.len() == m.capacity(),
        counted(head, links, before, after, free),
        finds(m, head, links, before, after),
    ensures
        free == m.free().len(),
        free == m.capacity() - m.live(),
{
    let (observed, cursors) = choose|observed: u64, cursors: Seq<u64>| #[trigger]
        walked(links, observed, cursors) && free == cursors.len() - 1 && after == before.push(
            Access::Load { word: head, value: observed },
        ) + walk_loads(links, cursors);
    assert(after[before.len() as int] == (Access::Load { word: head, value: observed }));
    assert forall|k: int| 0 <= k < cursors.len() - 1 implies cursors[k + 1]
        == m.links[#[trigger] cursors[k] - 1] by {
        assert(after[before.len() + 1 + k] == walk_loads(links, cursors)[k]);
        assert(after[before.len() + 1 + k] is Load);
    }
    assert(walk_over(m.head, m.links, cursors));
    law_walk_counts_list(m.head, m.links, cursors);
    law_live_plus_free_is_capacity(m);
}

} // verus!
