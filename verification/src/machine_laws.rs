//! What every interleaving of clients keeps, and what one client alone does.

use vstd::prelude::*;
use vstd::set_lib::{lemma_int_range, lemma_set_disjoint_lens, set_int_range};

use crate::error::MAX_SLOTS;
use crate::free_list::{is_slot, popped_head};
use crate::list_laws::{
    law_fresh_list_holds_all, law_list_fits, law_pop_takes_top, law_push_puts_on_top,
    law_pop_then_push_raises_tag_by_two, law_walk_meets_list,
    law_write_off_list, slots_in_order,
};
use crate::machine::{give_back, give_up, owned_slots, take, Action, Client, Machine};
use crate::word::{half_range, index_of, law_pack_unpack, law_unpack_pack, tag_of, NIL};

verus! {

/// A new pool is sound.
pub proof fn law_fresh_is_sound(capacity: nat, clients: nat)
    requires
        1 <= capacity <= MAX_SLOTS,
    ensures
        Machine::fresh(capacity, clients).sound(),
        Machine::fresh(capacity, clients).free() == slots_in_order(capacity),
{
    let m = Machine::fresh(capacity, clients);
    law_fresh_list_holds_all(capacity);
    assert forall|slot: int| is_slot(slot, m.capacity()) implies #[trigger] m.accounts_for(slot) by {
        assert(m.free()[slot - 1] == slot);
    }
}

/// A client that moves on without touching the shared memory or the slot that
/// it owns keeps the machine sound.
proof fn lemma_client_moves_on(m: Machine, i: int, client: Client)
    requires
        m.sound(),
        0 <= i < m.clients.len(),
        m.client_ok(client),
        client.owned() == m.clients[i].owned(),
    ensures
        m.with_client(i, client).sound(),
{
    let n = m.with_client(i, client);
    assert forall|j: int, slot: int| n.owns(j, slot) == m.owns(j, slot) by {}
    assert forall|j: int| 0 <= j < n.clients.len() implies n.client_ok(
        #[trigger] n.clients[j],
    ) by {
        assert(m.client_ok(if j == i {
            client
        } else {
            m.clients[j]
        }));
    }
    assert forall|slot: int| is_slot(slot, n.capacity()) implies #[trigger] n.accounts_for(slot) by {
        assert(m.accounts_for(slot));
        if !n.free().contains(slot) {
            let j = choose|j: int| m.owns(j, slot);
            assert(n.owns(j, slot));
        }
    }
}

/// A client that writes the link of its own slot keeps the machine sound, and
/// the free list as it was.
proof fn lemma_link_written(m: Machine, i: int)
    requires
        m.sound(),
        0 <= i < m.clients.len(),
        m.clients[i] is PushObserved,
    ensures
        m.after(i, Action::WriteLink).sound(),
        m.after(i, Action::WriteLink).free() == m.free(),
{
    let n = m.after(i, Action::WriteLink);
    assert(m.client_ok(m.clients[i]));
    let slot = m.clients[i]->PushObserved_slot;
    let observed = m.clients[i]->PushObserved_observed;
    law_write_off_list(
        index_of(m.head),
        m.links,
        m.free(),
        slot as int,
        index_of(observed) as u64,
    );
    law_list_fits(index_of(m.head), n.links, m.free());
    law_walk_meets_list(index_of(m.head), n.links, m.free(), n.links.len());
    assert(m.owns(i, slot as int));
    assert forall|j: int, s: int| n.owns(j, s) == m.owns(j, s) by {}
    assert forall|j: int| 0 <= j < n.clients.len() implies n.client_ok(
        #[trigger] n.clients[j],
    ) by {
        assert(m.client_ok(m.clients[j]));
        match n.clients[j] {
            Client::PopLinked { observed: seen, link, since } => {
                if since == m.version {
                    assert(m.free().contains(m.free()[0]));
                }
            },
            Client::PushLinked { slot: other, .. } => {
                if j != i {
                    assert(m.owns(j, other as int));
                }
            },
            _ => {},
        }
    }
    assert forall|s: int| is_slot(s, n.capacity()) implies #[trigger] n.accounts_for(s) by {
        assert(m.accounts_for(s));
        if !n.free().contains(s) {
            let j = choose|j: int| m.owns(j, s);
            assert(n.owns(j, s));
        }
    }
}

/// A client whose swap takes the top slot keeps the machine sound.
proof fn lemma_pop_swapped(m: Machine, i: int)
    requires
        m.sound(),
        0 <= i < m.clients.len(),
        m.clients[i] is PopLinked,
        m.clients[i]->PopLinked_observed == m.head,
        m.in_time(i),
    ensures
        m.free().len() > 0,
        m.clients[i]->PopLinked_since == m.version,
        m.after(i, Action::Swap).sound(),
        m.after(i, Action::Swap).free() == m.free().drop_first(),
        m.after(i, Action::Swap).owns(i, m.free()[0]),
{
    let n = m.after(i, Action::Swap);
    assert(m.client_ok(m.clients[i]));
    let since = m.clients[i]->PopLinked_since;
    let link = m.clients[i]->PopLinked_link;
    let free = m.free();
    lemma_same_tag_same_version(since as int, m.version as int);
    assert(free.len() > 0);
    law_pop_takes_top(m.head, m.links);
    let top = free[0];
    lemma_tag_follows_version(m.head, m.version as int);
    assert(free.contains(top));
    assert(n.free() == free.drop_first());
    assert forall|s: int| #[trigger] n.free().contains(s) <==> free.contains(s) && s != top by {
        if n.free().contains(s) {
            let k = choose|k: int| 0 <= k < n.free().len() && n.free()[k] == s;
            assert(free[k + 1] == s);
        }
        if free.contains(s) && s != top {
            let k = choose|k: int| 0 <= k < free.len() && free[k] == s;
            assert(n.free()[k - 1] == s);
        }
    }
    assert(n.owns(i, top));
    assert forall|j: int, s: int| #[trigger] n.owns(j, s) <==> m.owns(j, s) || (j == i && s
        == top) by {}
    assert forall|j: int, s: int| #[trigger] m.owns(j, s) implies s != top by {
        assert(m.client_ok(m.clients[j]));
    }
    assert forall|j: int| 0 <= j < n.clients.len() implies n.client_ok(
        #[trigger] n.clients[j],
    ) by {
        assert(m.client_ok(m.clients[j]));
    }
    assert forall|s: int| is_slot(s, n.capacity()) implies #[trigger] n.accounts_for(s) by {
        assert(m.accounts_for(s));
        if !n.free().contains(s) && s != top {
            let j = choose|j: int| m.owns(j, s);
            assert(n.owns(j, s));
        }
    }
}

/// A client whose swap gives its slot back keeps the machine sound.
proof fn lemma_push_swapped(m: Machine, i: int)
    requires
        m.sound(),
        0 <= i < m.clients.len(),
        m.clients[i] is PushLinked,
        m.clients[i]->PushLinked_observed == m.head,
    ensures
        m.after(i, Action::Swap).sound(),
        m.after(i, Action::Swap).free() == seq![m.clients[i]->PushLinked_slot as int] + m.free(),
{
    let n = m.after(i, Action::Swap);
    assert(m.client_ok(m.clients[i]));
    let slot = m.clients[i]->PushLinked_slot;
    let free = m.free();
    law_push_puts_on_top(m.head, m.links, slot);
    lemma_tag_follows_version(m.head, m.version as int);
    assert(n.free() == seq![slot as int] + free);
    assert forall|s: int| #[trigger] n.free().contains(s) <==> free.contains(s) || s == slot by {
        if n.free().contains(s) {
            let k = choose|k: int| 0 <= k < n.free().len() && n.free()[k] == s;
            if k > 0 {
                assert(free[k - 1] == s);
            }
        }
        if free.contains(s) {
            let k = choose|k: int| 0 <= k < free.len() && free[k] == s;
            assert(n.free()[k + 1] == s);
        }
        if s == slot {
            assert(n.free()[0] == s);
        }
    }
    assert(m.owns(i, slot as int));
    assert forall|j: int, s: int| #[trigger] n.owns(j, s) <==> m.owns(j, s) && j != i by {}
    assert forall|j: int| 0 <= j < n.clients.len() implies n.client_ok(
        #[trigger] n.clients[j],
    ) by {
        assert(m.client_ok(m.clients[j]));
        if j != i && m.clients[j].owned() is Some {
            assert(m.owns(j, m.clients[j].owned()->0 as int));
        }
    }
    assert forall|s: int| is_slot(s, n.capacity()) implies #[trigger] n.accounts_for(s) by {
        assert(m.accounts_for(s));
        if !n.free().contains(s) {
            let j = choose|j: int| m.owns(j, s);
            assert(n.owns(j, s));
        }
    }
}

/// Two versions closer than the number of tags have the same tag only if they
/// are the same.
proof fn lemma_same_tag_same_version(since: int, version: int)
    requires
        0 <= since <= version,
        version - since < half_range(),
        since % half_range() == version % half_range(),
    ensures
        since == version,
{
}

/// Raising the tag by one follows the version.
proof fn lemma_tag_follows_version(head: u64, version: int)
    requires
        tag_of(head) == version % half_range(),
    ensures
        (tag_of(head) + 1) % half_range() == (version + 1) % half_range(),
{
}

/// Every action of every client keeps the machine sound, given that no client
/// takes a slot on an observation so old that the tags have come round.
pub proof fn law_action_keeps_sound(m: Machine, i: int, action: Action)
    requires
        m.sound(),
        m.enabled(i, action),
        action is Swap ==> m.in_time(i),
    ensures
        m.after(i, action).sound(),
{
    assert(m.client_ok(m.clients[i]));
    law_pack_unpack(m.head);
    if m.free().len() > 0 {
        assert(is_slot(m.free()[0], m.capacity()));
    }
    let head = m.head;
    let since = m.version;
    match m.clients[i] {
        Client::Idle => lemma_client_moves_on(
            m,
            i,
            Client::PopObserved { observed: head, since },
        ),
        Client::Holding { slot } => lemma_client_moves_on(
            m,
            i,
            Client::PushObserved { slot, observed: head, since },
        ),
        Client::PopObserved { observed, since: seen } => if action is ReadLink {
            lemma_client_moves_on(
                m,
                i,
                Client::PopLinked {
                    observed,
                    link: m.links[index_of(observed) - 1],
                    since: seen,
                },
            );
        } else {
            lemma_client_moves_on(m, i, Client::Idle);
        },
        Client::PushObserved { .. } => lemma_link_written(m, i),
        Client::PopLinked { observed, .. } => if action is Swap && head == observed {
            lemma_pop_swapped(m, i);
        } else {
            lemma_client_moves_on(m, i, Client::PopObserved { observed: head, since });
        },
        Client::PushLinked { slot, observed, .. } => if action is Swap && head == observed {
            lemma_push_swapped(m, i);
        } else {
            lemma_client_moves_on(m, i, Client::PushObserved { slot, observed: head, since });
        },
    }
}

/// A sound machine stays sound, whatever the order in which its clients act.
pub proof fn law_every_run_is_sound(m: Machine, schedule: Seq<(int, Action)>)
    requires
        m.sound(),
        m.can_run(schedule),
    ensures
        m.run(schedule).sound(),
        m.run(schedule).capacity() == m.capacity(),
        m.run(schedule).clients.len() == m.clients.len(),
    decreases schedule.len(),
{
    if schedule.len() > 0 {
        let (i, action) = schedule[0];
        law_action_keeps_sound(m, i, action);
        law_every_run_is_sound(m.after(i, action), schedule.drop_first());
    }
}

/// No slot has two owners, and no slot that is owned can be taken: two guards
/// of one slot are impossible.
pub proof fn law_slots_are_exclusive(m: Machine, i: int, j: int, slot: int)
    requires
        m.sound(),
        m.owns(i, slot),
        m.owns(j, slot),
    ensures
        i == j,
        is_slot(slot, m.capacity()),
        !m.free().contains(slot),
{
    assert(m.client_ok(m.clients[i]));
}

/// The owned slots are those of the clients that own one, each listed once
/// where no two clients own the same.
proof fn lemma_owned_slots(clients: Seq<Client>)
    ensures
        forall|i: int|
            0 <= i < clients.len() && (#[trigger] clients[i]).owned() is Some ==> owned_slots(
                clients,
            ).contains(clients[i].owned()->0 as int),
        forall|s: int| #[trigger]
            owned_slots(clients).contains(s) ==> exists|i: int|
                0 <= i < clients.len() && (#[trigger] clients[i]).owned() is Some
                    && clients[i].owned()->0 == s,
        (forall|i: int, j: int|
            0 <= i < j < clients.len() && (#[trigger] clients[i]).owned() is Some ==> (
            #[trigger] clients[j]).owned() != clients[i].owned()) ==> owned_slots(
            clients,
        ).no_duplicates(),
    decreases clients.len(),
{
    if clients.len() > 0 {
        let others = clients.drop_last();
        let before = owned_slots(others);
        let now = owned_slots(clients);
        lemma_owned_slots(others);
        assert forall|i: int|
            0 <= i < clients.len() && (#[trigger] clients[i]).owned() is Some implies now.contains(
            clients[i].owned()->0 as int,
        ) by {
            let s = clients[i].owned()->0 as int;
            if i < others.len() {
                assert(others[i] == clients[i]);
                let k = choose|k: int| 0 <= k < before.len() && before[k] == s;
                assert(now[k] == s);
            } else {
                assert(now[before.len() as int] == s);
            }
        }
        assert forall|s: int| #[trigger] now.contains(s) implies exists|i: int|
            0 <= i < clients.len() && (#[trigger] clients[i]).owned() is Some
                && clients[i].owned()->0 == s by {
            let k = choose|k: int| 0 <= k < now.len() && now[k] == s;
            if k < before.len() {
                assert(before[k] == s);
                assert(before.contains(s));
                let i = choose|i: int|
                    0 <= i < others.len() && (#[trigger] others[i]).owned() is Some
                        && others[i].owned()->0 == s;
                assert(clients[i] == others[i]);
            } else {
                assert(clients[clients.len() - 1].owned() is Some);
            }
        }
        if forall|i: int, j: int|
            0 <= i < j < clients.len() && (#[trigger] clients[i]).owned() is Some ==> (
            #[trigger] clients[j]).owned() != clients[i].owned() {
            assert forall|i: int, j: int|
                0 <= i < j < others.len() && (#[trigger] others[i]).owned() is Some implies (
            #[trigger] others[j]).owned() != others[i].owned() by {
                assert(others[i] == clients[i] && others[j] == clients[j]);
            }
            if clients.last().owned() is Some {
                let s = clients.last().owned()->0 as int;
                if before.contains(s) {
                    let i = choose|i: int|
                        0 <= i < others.len() && (#[trigger] others[i]).owned() is Some
                            && others[i].owned()->0 == s;
                    assert(clients[i] == others[i]);
                    assert(clients[clients.len() - 1].owned() != clients[i].owned());
                }
                assert forall|j: int, k: int| 0 <= j < k < now.len() implies now[j] != now[k] by {
                    assert(now[j] == before[j]);
                    assert(before.contains(before[j]));
                }
            }
        }
    }
}

/// Two lists of distinct slots that share none and miss none are together as
/// long as there are slots.
proof fn lemma_parts_make_whole(free: Seq<int>, owned: Seq<int>, capacity: nat)
    requires
        free.no_duplicates(),
        owned.no_duplicates(),
        forall|s: int| #[trigger] free.contains(s) ==> is_slot(s, capacity),
        forall|s: int| #[trigger]
            owned.contains(s) ==> is_slot(s, capacity) && !free.contains(s),
        forall|s: int| #[trigger]
            is_slot(s, capacity) ==> free.contains(s) || owned.contains(s),
    ensures
        free.len() + owned.len() == capacity,
{
    let numbers = set_int_range(1, capacity as int + 1);
    assert forall|s: int| numbers.contains(s) <==> is_slot(s, capacity) by {}
    assert(free.to_set() + owned.to_set() =~= numbers);
    assert(free.to_set().disjoint(owned.to_set()));
    lemma_set_disjoint_lens(free.to_set(), owned.to_set());
    free.unique_seq_to_set();
    owned.unique_seq_to_set();
    lemma_int_range(1, capacity as int + 1);
}

/// No slot is lost: the slots that are owned and those that are free are
/// together as many as the pool has. So no more guards are live than it has
/// slots.
pub proof fn law_live_plus_free_is_capacity(m: Machine)
    requires
        m.sound(),
    ensures
        m.live() + m.free().len() == m.capacity(),
        m.live() <= m.capacity(),
{
    let free = m.free();
    let owned = owned_slots(m.clients);
    lemma_owned_slots(m.clients);
    assert forall|i: int, j: int|
        0 <= i < j < m.clients.len() && (#[trigger] m.clients[i]).owned() is Some implies (
    #[trigger] m.clients[j]).owned() != m.clients[i].owned() by {
        assert(m.owns(i, m.clients[i].owned()->0 as int));
        if m.clients[j].owned() == m.clients[i].owned() {
            assert(m.owns(j, m.clients[i].owned()->0 as int));
        }
    }
    assert forall|s: int| #[trigger] owned.contains(s) implies is_slot(s, m.capacity())
        && !free.contains(s) by {
        let i = choose|i: int|
            0 <= i < m.clients.len() && (#[trigger] m.clients[i]).owned() is Some
                && m.clients[i].owned()->0 == s;
        assert(m.client_ok(m.clients[i]));
    }
    assert forall|s: int| #[trigger] is_slot(s, m.capacity()) implies free.contains(s)
        || owned.contains(s) by {
        assert(m.accounts_for(s));
        if !free.contains(s) {
            let i = choose|i: int| m.owns(i, s);
            assert(m.clients[i].owned() is Some);
        }
    }
    assert forall|s: int| #[trigger] free.contains(s) implies is_slot(s, m.capacity()) by {
        let k = choose|k: int| 0 <= k < free.len() && free[k] == s;
        assert(is_slot(free[k], m.capacity()));
    }
    lemma_parts_make_whole(free, owned, m.capacity());
}

/// However the clients of a new pool interleave, no slot ever has two owners,
/// none is owned while it is free, and none is lost.
pub proof fn law_every_interleaving_is_safe(
    capacity: nat,
    clients: nat,
    schedule: Seq<(int, Action)>,
)
    requires
        1 <= capacity <= MAX_SLOTS,
        Machine::fresh(capacity, clients).can_run(schedule),
    ensures
        ({
            let m = Machine::fresh(capacity, clients).run(schedule);
            &&& m.capacity() == capacity
            &&& forall|i: int, j: int, slot: int| #[trigger]
                m.owns(i, slot) && #[trigger] m.owns(j, slot) ==> i == j
            &&& forall|i: int, slot: int| #[trigger]
                m.owns(i, slot) ==> is_slot(slot, capacity) && !m.free().contains(slot)
            &&& m.live() + m.free().len() == capacity
        }),
{
    let fresh = Machine::fresh(capacity, clients);
    let m = fresh.run(schedule);
    law_fresh_is_sound(capacity, clients);
    law_every_run_is_sound(fresh, schedule);
    law_live_plus_free_is_capacity(m);
    assert forall|i: int, slot: int| #[trigger] m.owns(i, slot) implies is_slot(slot, capacity)
        && !m.free().contains(slot) by {
        law_slots_are_exclusive(m, i, i, slot);
    }
}

/// A pool none of whose slots is owned has all its slots on the free list.
pub proof fn law_quiet_pool_is_all_free(m: Machine)
    requires
        m.sound(),
        forall|i: int| 0 <= i < m.clients.len() ==> (#[trigger] m.clients[i]).owned() is None,
    ensures
        m.free().len() == m.capacity(),
{
    law_live_plus_free_is_capacity(m);
    lemma_owned_slots(m.clients);
    let owned = owned_slots(m.clients);
    if owned.len() > 0 {
        assert(owned.contains(owned[0]));
    }
}

/// The head names a slot just when one is free, so a client that observes the
/// head gives up just when every slot is owned.
pub proof fn law_refusal_means_exhaustion(m: Machine)
    requires
        m.sound(),
    ensures
        !is_slot(index_of(m.head), m.capacity()) <==> m.live() == m.capacity(),
        !is_slot(index_of(m.head), m.capacity()) <==> m.free().len() == 0,
{
    law_live_plus_free_is_capacity(m);
    if m.free().len() > 0 {
        assert(is_slot(m.free()[0], m.capacity()));
    }
}

/// The head and every link name a slot or nothing: no access leaves the pool.
pub proof fn law_words_name_slots(m: Machine, slot: int)
    requires
        m.sound(),
        is_slot(slot, m.capacity()),
    ensures
        index_of(m.head) == NIL || is_slot(index_of(m.head), m.capacity()),
        m.links[slot - 1] == NIL || is_slot(m.links[slot - 1] as int, m.capacity()),
{
    if m.free().len() > 0 {
        assert(is_slot(m.free()[0], m.capacity()));
    }
}

/// A swap on a stale observation fails and leaves the shared memory as it is,
/// even where the observed slot is back on top: that many swaps ago, the head
/// had another tag.
pub proof fn law_stale_swap_fails(m: Machine, i: int)
    requires
        m.sound(),
        0 <= i < m.clients.len(),
        m.observation(i) matches Some((observed, since)) && since < m.version && m.version - since
            < half_range(),
    ensures
        m.observation(i) matches Some((observed, since)) && observed != m.head,
        m.after(i, Action::Swap).head == m.head,
        m.after(i, Action::Swap).links == m.links,
        m.after(i, Action::Swap).version == m.version,
        m.after(i, Action::Swap).clients[i].owned() == m.clients[i].owned(),
{
    assert(m.client_ok(m.clients[i]));
    let (observed, since) = m.observation(i)->0;
    if observed == m.head {
        lemma_same_tag_same_version(since as int, m.version as int);
    }
}

/// A swap that finds another head than the one observed fails because another
/// client's swap has succeeded since: some client always gets on.
pub proof fn law_failed_swap_means_progress(m: Machine, i: int)
    requires
        m.sound(),
        0 <= i < m.clients.len(),
        m.observation(i) matches Some((observed, since)) && observed != m.head,
    ensures
        m.observation(i) matches Some((observed, since)) && since < m.version,
{
    assert(m.client_ok(m.clients[i]));
}

/// A client that takes a slot undisturbed gets the top one, and leaves the
/// others free in their order.
pub proof fn law_take_gets_top(m: Machine, i: int)
    requires
        m.sound(),
        0 <= i < m.clients.len(),
        m.clients[i] is Idle,
        m.free().len() > 0,
    ensures
        m.can_run(take(i)),
        m.run(take(i)).sound(),
        m.run(take(i)).clients == m.clients.update(
            i,
            Client::Holding { slot: m.free()[0] as u64 },
        ),
        m.run(take(i)).free() == m.free().drop_first(),
        m.run(take(i)).links == m.links,
        m.run(take(i)).version == m.version + 1,
{
    lemma_three_steps(m, (i, Action::Observe), (i, Action::ReadLink), (i, Action::Swap));
    assert(is_slot(m.free()[0], m.capacity()));
    let a = m.after(i, Action::Observe);
    law_action_keeps_sound(m, i, Action::Observe);
    let b = a.after(i, Action::ReadLink);
    law_action_keeps_sound(a, i, Action::ReadLink);
    lemma_pop_swapped(b, i);
    assert(b.after(i, Action::Swap).clients =~= m.clients.update(
        i,
        Client::Holding { slot: m.free()[0] as u64 },
    ));
}

/// A client that tries to take a slot while none is free gives up at once and
/// changes nothing.
pub proof fn law_take_from_exhausted_pool_fails(m: Machine, i: int)
    requires
        m.sound(),
        0 <= i < m.clients.len(),
        m.clients[i] is Idle,
        m.free().len() == 0,
    ensures
        m.can_run(give_up(i)),
        m.run(give_up(i)) == m,
{
    let schedule = give_up(i);
    let a = m.after(i, Action::Observe);
    reveal_with_fuel(Machine::can_run, 3);
    reveal_with_fuel(Machine::run, 3);
    assert(schedule.drop_first() =~= seq![(i, Action::Refuse)]);
    assert(schedule.drop_first().drop_first() =~= Seq::<(int, Action)>::empty());
    assert(a.after(i, Action::Refuse).clients =~= m.clients);
}

/// A client that gives its slot back undisturbed puts it on top of the others.
pub proof fn law_give_back_puts_on_top(m: Machine, i: int)
    requires
        m.sound(),
        0 <= i < m.clients.len(),
        m.clients[i] is Holding,
    ensures
        m.can_run(give_back(i)),
        m.run(give_back(i)).sound(),
        m.run(give_back(i)).clients == m.clients.update(i, Client::Idle),
        m.run(give_back(i)).free() == seq![m.clients[i]->Holding_slot as int] + m.free(),
        m.run(give_back(i)).capacity() == m.capacity(),
        m.run(give_back(i)).version == m.version + 1,
{
    lemma_three_steps(m, (i, Action::Observe), (i, Action::WriteLink), (i, Action::Swap));
    let a = m.after(i, Action::Observe);
    law_action_keeps_sound(m, i, Action::Observe);
    let b = a.after(i, Action::WriteLink);
    lemma_link_written(a, i);
    lemma_push_swapped(b, i);
    assert(b.after(i, Action::Swap).clients =~= m.clients.update(i, Client::Idle));
}

/// What a run of three actions is.
pub(crate) proof fn lemma_three_steps(m: Machine, x: (int, Action), y: (int, Action), z: (int, Action))
    ensures
        ({
            let a = m.after(x.0, x.1);
            let b = a.after(y.0, y.1);
            &&& m.run(seq![x, y, z]) == b.after(z.0, z.1)
            &&& m.can_run(seq![x, y, z]) <==> {
                &&& m.enabled(x.0, x.1)
                &&& x.1 is Swap ==> m.in_time(x.0)
                &&& a.enabled(y.0, y.1)
                &&& y.1 is Swap ==> a.in_time(y.0)
                &&& b.enabled(z.0, z.1)
                &&& z.1 is Swap ==> b.in_time(z.0)
            }
        }),
{
    reveal_with_fuel(Machine::can_run, 4);
    reveal_with_fuel(Machine::run, 4);
    let schedule = seq![x, y, z];
    assert(schedule.drop_first() =~= seq![y, z]);
    assert(schedule.drop_first().drop_first() =~= seq![z]);
    assert(schedule.drop_first().drop_first().drop_first() =~= Seq::<(int, Action)>::empty());
}

/// The slot freed last is taken first, and the list is then what it was before
/// the slot was freed.
pub proof fn law_last_freed_first_taken(m: Machine, i: int, j: int)
    requires
        m.sound(),
        0 <= i < m.clients.len(),
        0 <= j < m.clients.len(),
        m.clients[i] is Holding,
        j == i || m.clients[j] is Idle,
    ensures
        m.run(give_back(i)).free().len() == m.free().len() + 1,
        m.run(give_back(i)).live() == m.live() - 1,
        m.run(give_back(i)).can_run(take(j)),
        m.run(give_back(i)).run(take(j)).clients[j] == m.clients[i],
        m.run(give_back(i)).run(take(j)).free() == m.free(),
{
    law_give_back_puts_on_top(m, i);
    law_live_plus_free_is_capacity(m);
    law_live_plus_free_is_capacity(m.run(give_back(i)));
    law_take_gets_top(m.run(give_back(i)), j);
    assert((seq![m.clients[i]->Holding_slot as int] + m.free()).drop_first() =~= m.free());
}

/// The last of `items` comes first when they are reversed.
proof fn lemma_reverse_starts_with_last(items: Seq<int>, rest: Seq<int>)
    requires
        items.len() > 0,
    ensures
        items.reverse() + rest == seq![items.last()] + (items.drop_last().reverse() + rest),
{
    assert(items.reverse() + rest =~= seq![items.last()] + (items.drop_last().reverse() + rest));
}

/// Where nothing occurs twice, the last of `items` is not among the others, and
/// all of them are the others and it.
proof fn lemma_last_and_others(items: Seq<int>)
    requires
        items.len() > 0,
        items.no_duplicates(),
    ensures
        !items.drop_last().contains(items.last()),
        items.drop_last().no_duplicates(),
        forall|c: int| #[trigger]
            items.contains(c) <==> items.drop_last().contains(c) || c == items.last(),
{
    let others = items.drop_last();
    assert forall|c: int| #[trigger] items.contains(c) implies others.contains(c) || c
        == items.last() by {
        let k = choose|k: int| 0 <= k < items.len() && items[k] == c;
        if k < others.len() {
            assert(others[k] == c);
        }
    }
    assert forall|c: int| others.contains(c) || c == items.last() implies #[trigger] items.contains(
        c,
    ) by {
        if others.contains(c) {
            let k = choose|k: int| 0 <= k < others.len() && others[k] == c;
            assert(items[k] == c);
        } else {
            assert(items[items.len() - 1] == c);
        }
    }
}

/// Slots freed one after the other lie on the list in the reverse order, above
/// those that were free before.
pub proof fn law_freed_slots_lie_in_reverse(m: Machine, holders: Seq<int>)
    requires
        m.sound(),
        holders.no_duplicates(),
        forall|k: int|
            0 <= k < holders.len() ==> 0 <= #[trigger] holders[k] < m.clients.len()
                && m.clients[holders[k]] is Holding,
    ensures
        m.freed(holders).sound(),
        m.freed(holders).free() == holders.map_values(
            |i: int| m.clients[i]->Holding_slot as int,
        ).reverse() + m.free(),
        m.freed(holders).clients.len() == m.clients.len(),
        forall|i: int|
            0 <= i < m.clients.len() ==> #[trigger] m.freed(holders).clients[i] == (
            if holders.contains(i) {
                Client::Idle
            } else {
                m.clients[i]
            }),
    decreases holders.len(),
{
    let slots = holders.map_values(|i: int| m.clients[i]->Holding_slot as int);
    if holders.len() > 0 {
        let before = holders.drop_last();
        let i = holders.last();
        let a = m.freed(before);
        lemma_last_and_others(holders);
        law_freed_slots_lie_in_reverse(m, before);
        law_give_back_puts_on_top(a, i);
        lemma_reverse_starts_with_last(slots, m.free());
        assert(slots.drop_last() =~= before.map_values(
            |i: int| m.clients[i]->Holding_slot as int,
        ));
    } else {
        assert(slots.reverse() + m.free() =~= m.free());
    }
}

/// What a new pool looks like when its first clients have taken a slot each.
proof fn lemma_filled(capacity: nat, clients: nat, taken: nat)
    requires
        1 <= capacity <= MAX_SLOTS,
        taken <= capacity,
        taken <= clients,
    ensures
        ({
            let m = Machine::filled(capacity, clients, taken);
            &&& m.sound()
            &&& m.capacity() == capacity
            &&& m.free() == slots_in_order(capacity).skip(taken as int)
            &&& m.clients.len() == clients
            &&& forall|i: int|
                0 <= i < clients ==> #[trigger] m.clients[i] == if i < taken {
                    Client::Holding { slot: (i + 1) as u64 }
                } else {
                    Client::Idle
                }
        }),
    decreases taken,
{
    if taken == 0 {
        law_fresh_is_sound(capacity, clients);
        assert(slots_in_order(capacity).skip(0) =~= slots_in_order(capacity));
    } else {
        let before = Machine::filled(capacity, clients, (taken - 1) as nat);
        lemma_filled(capacity, clients, (taken - 1) as nat);
        assert(before.free()[0] == taken);
        assert(before.clients[taken - 1] is Idle);
        law_take_gets_top(before, taken - 1);
        assert(slots_in_order(capacity).skip(taken - 1).drop_first() =~= slots_in_order(
            capacity,
        ).skip(taken as int));
    }
}

/// A new pool hands out its slots in order, one to each of as many clients as
/// it has slots, and then no more.
pub proof fn law_fresh_pool_hands_out_in_order(capacity: nat, clients: nat, taken: nat)
    requires
        1 <= capacity <= MAX_SLOTS,
        taken <= capacity,
        taken <= clients,
    ensures
        ({
            let m = Machine::filled(capacity, clients, taken);
            &&& m.sound()
            &&& m.capacity() == capacity
            &&& m.free() == slots_in_order(capacity).skip(taken as int)
            &&& m.clients == Seq::new(
                clients,
                |i: int|
                    if i < taken {
                        Client::Holding { slot: (i + 1) as u64 }
                    } else {
                        Client::Idle
                    },
            )
            &&& taken < clients ==> if taken < capacity {
                m.can_run(take(taken as int))
            } else {
                m.can_run(give_up(taken as int))
            }
        }),
{
    let m = Machine::filled(capacity, clients, taken);
    lemma_filled(capacity, clients, taken);
    if taken < clients {
        if taken < capacity {
            law_take_gets_top(m, taken as int);
        } else {
            law_take_from_exhausted_pool_fails(m, taken as int);
        }
    }
}

/// A swap that takes a slot in time takes the top one, with the link that it has
/// at that moment.
pub proof fn law_swap_takes_top(m: Machine, i: int)
    requires
        m.sound(),
        0 <= i < m.clients.len(),
        m.clients[i] is PopLinked,
        m.clients[i]->PopLinked_observed == m.head,
        m.in_time(i),
    ensures
        m.free().len() > 0,
        m.after(i, Action::Swap).head == popped_head(m.head, m.links[m.free()[0] - 1]),
        m.after(i, Action::Swap).owns(i, m.free()[0]),
        m.after(i, Action::Swap).free() == m.free().drop_first(),
{
    assert(m.client_ok(m.clients[i]));
    lemma_pop_swapped(m, i);
}

/// A swap that gives a slot back succeeds only on the current head: it puts the
/// slot on top of those that are free at that moment.
pub proof fn law_push_swap_puts_on_top(m: Machine, i: int)
    requires
        m.sound(),
        0 <= i < m.clients.len(),
        m.clients[i] is PushLinked,
        m.clients[i]->PushLinked_observed == m.head,
    ensures
        m.after(i, Action::Swap).sound(),
        m.after(i, Action::Swap).clients[i] is Idle,
        m.after(i, Action::Swap).free() == seq![m.clients[i]->PushLinked_slot as int] + m.free(),
{
    lemma_push_swapped(m, i);
}

/// A client that takes a slot and gives it back at once, undisturbed, leaves the
/// free list, the links and the owners as they were. Only the tag is two higher.
pub proof fn law_give_back_undoes_take(m: Machine, i: int)
    requires
        m.sound(),
        0 <= i < m.clients.len(),
        m.clients[i] is Idle,
        m.free().len() > 0,
    ensures
        m.can_run(take(i)),
        m.run(take(i)).can_run(give_back(i)),
        ({
            let n = m.run(take(i)).run(give_back(i));
            &&& n.sound()
            &&& n.free() == m.free()
            &&& n.clients == m.clients
            &&& n.links == m.links
            &&& n.live() == m.live()
            &&& index_of(n.head) == index_of(m.head)
            &&& tag_of(n.head) == (tag_of(m.head) + 2) % half_range()
            &&& n.head != m.head
        }),
{
    let top = m.free()[0] as u64;
    let taken = m.run(take(i));
    let n = taken.run(give_back(i));
    law_take_gets_top(m, i);
    law_give_back_puts_on_top(taken, i);
    assert(is_slot(m.free()[0], m.capacity()));
    assert(n.free() =~= m.free());
    assert(n.clients =~= m.clients);
    lemma_three_steps(m, (i, Action::Observe), (i, Action::ReadLink), (i, Action::Swap));
    lemma_three_steps(taken, (i, Action::Observe), (i, Action::WriteLink), (i, Action::Swap));
    let link = m.links[top - 1];
    law_pop_takes_top(m.head, m.links);
    assert(taken.head == popped_head(m.head, link));
    law_unpack_pack(link as int, tag_of(m.head) + 1);
    assert(index_of(taken.head) == link);
    assert(n.links =~= m.links);
    law_pop_then_push_raises_tag_by_two(m.head, link);
}

/// A client that gives its slot back leaves what every other client holds: it
/// keeps its slot, and that slot stays off the free list.
pub proof fn law_give_back_leaves_others(m: Machine, i: int, j: int)
    requires
        m.sound(),
        0 <= i < m.clients.len(),
        0 <= j < m.clients.len(),
        m.clients[i] is Holding,
        i != j,
    ensures
        m.run(give_back(i)).clients[j] == m.clients[j],
        m.run(give_back(i)).capacity() == m.capacity(),
        m.clients[j].owned() matches Some(slot) ==> !m.run(give_back(i)).free().contains(
            slot as int,
        ),
{
    let n = m.run(give_back(i));
    law_give_back_puts_on_top(m, i);
    assert(n.client_ok(n.clients[j]));
}

/// Clients that take a slot each, in turn and undisturbed, get the free slots in
/// their order, as long as there are any.
pub proof fn law_takes_follow_list(m: Machine, takers: Seq<int>)
    requires
        m.sound(),
        takers.no_duplicates(),
        takers.len() <= m.free().len(),
        forall|k: int|
            0 <= k < takers.len() ==> 0 <= #[trigger] takers[k] < m.clients.len()
                && m.clients[takers[k]] is Idle,
    ensures
        m.served(takers).sound(),
        m.served(takers).free() == m.free().skip(takers.len() as int),
        m.served(takers).capacity() == m.capacity(),
        m.served(takers).clients.len() == m.clients.len(),
        forall|k: int|
            0 <= k < takers.len() ==> m.served(takers).clients[#[trigger] takers[k]]
                == (Client::Holding { slot: m.free()[k] as u64 }),
        forall|i: int|
            0 <= i < m.clients.len() && !takers.contains(i) ==> #[trigger] m.served(
                takers,
            ).clients[i] == m.clients[i],
    decreases takers.len(),
{
    if takers.len() > 0 {
        let before = takers.drop_last();
        let last = takers.last();
        let a = m.served(before);
        law_takes_follow_list(m, before);
        assert(!before.contains(last));
        law_take_gets_top(a, last);
        let n = m.served(takers);
        assert(n.free() =~= m.free().skip(takers.len() as int));
        assert forall|k: int| 0 <= k < takers.len() implies n.clients[#[trigger] takers[k]] == (
        Client::Holding { slot: m.free()[k] as u64 }) by {
            if k < before.len() {
                assert(before[k] == takers[k]);
                assert(takers[k] != last);
            }
        }
        assert forall|i: int| 0 <= i < m.clients.len() && !takers.contains(i) implies
            #[trigger] n.clients[i] == m.clients[i] by {
            assert(takers.contains(takers[takers.len() - 1]));
            if before.contains(i) {
                let k = choose|k: int| 0 <= k < before.len() && before[k] == i;
                assert(takers[k] == i);
            }
            assert(a.clients[i] == m.clients[i]);
        }
    } else {
        assert(m.free().skip(0) =~= m.free());
    }
}

/// A slot that is given back is the first to be taken again, and the slots that
/// were free before it follow in their order, until none is left.
pub proof fn law_returned_slot_comes_first(m: Machine, i: int, takers: Seq<int>)
    requires
        m.sound(),
        0 <= i < m.clients.len(),
        m.clients[i] is Holding,
        takers.no_duplicates(),
        takers.len() == m.free().len() + 1,
        forall|k: int|
            0 <= k < takers.len() ==> 0 <= #[trigger] takers[k] < m.clients.len() && (takers[k] == i
                || m.clients[takers[k]] is Idle),
    ensures
        ({
            let n = m.run(give_back(i)).served(takers);
            &&& n.sound()
            &&& n.clients[takers[0]] == m.clients[i]
            &&& forall|k: int|
                1 <= k < takers.len() ==> n.clients[#[trigger] takers[k]] == (Client::Holding {
                    slot: m.free()[k - 1] as u64,
                })
            &&& n.free().len() == 0
        }),
{
    law_give_back_puts_on_top(m, i);
    law_takes_follow_list(m.run(give_back(i)), takers);
}

/// Slots freed in turn are taken again in the reverse order, and the list is
/// then what it was before they were freed.
pub proof fn law_freed_slots_come_back_in_reverse(m: Machine, holders: Seq<int>, takers: Seq<int>)
    requires
        m.sound(),
        holders.no_duplicates(),
        takers.no_duplicates(),
        takers.len() == holders.len(),
        forall|k: int|
            0 <= k < holders.len() ==> 0 <= #[trigger] holders[k] < m.clients.len()
                && m.clients[holders[k]] is Holding,
        forall|k: int|
            0 <= k < takers.len() ==> 0 <= #[trigger] takers[k] < m.clients.len() && (
            holders.contains(takers[k]) || m.clients[takers[k]] is Idle),
    ensures
        m.freed(holders).free().len() == m.free().len() + holders.len(),
        ({
            let n = m.freed(holders).served(takers);
            &&& n.sound()
            &&& n.free() == m.free()
            &&& forall|k: int|
                0 <= k < takers.len() ==> n.clients[#[trigger] takers[k]]
                    == m.clients[holders[holders.len() - 1 - k]]
        }),
{
    let slots = holders.map_values(|i: int| m.clients[i]->Holding_slot as int);
    let a = m.freed(holders);
    law_freed_slots_lie_in_reverse(m, holders);
    law_takes_follow_list(a, takers);
    let n = a.served(takers);
    assert(a.free().skip(takers.len() as int) =~= m.free());
    assert forall|k: int| 0 <= k < takers.len() implies n.clients[#[trigger] takers[k]]
        == m.clients[holders[holders.len() - 1 - k]] by {
        assert(a.free()[k] == slots.reverse()[k]);
        assert(m.clients[holders[holders.len() - 1 - k]] is Holding);
    }
}

/// The order in which slots are freed decides in which order they lie on the
/// list, but not which slots do, nor how many.
pub proof fn law_order_of_freeing_keeps_the_set(m: Machine, one: Seq<int>, other: Seq<int>)
    requires
        m.sound(),
        one.no_duplicates(),
        other.no_duplicates(),
        one.to_set() == other.to_set(),
        forall|k: int|
            0 <= k < one.len() ==> 0 <= #[trigger] one[k] < m.clients.len()
                && m.clients[one[k]] is Holding,
    ensures
        m.freed(one).free().to_set() == m.freed(other).free().to_set(),
        m.freed(one).free().len() == m.freed(other).free().len(),
{
    one.unique_seq_to_set();
    other.unique_seq_to_set();
    assert forall|k: int| 0 <= k < other.len() implies 0 <= #[trigger] other[k] < m.clients.len()
        && m.clients[other[k]] is Holding by {
        assert(other.to_set().contains(other[k]));
        let j = choose|j: int| 0 <= j < one.len() && one[j] == other[k];
        assert(0 <= one[j] < m.clients.len());
    }
    law_freed_slots_lie_in_reverse(m, one);
    law_freed_slots_lie_in_reverse(m, other);
    lemma_freed_are_in(m, one, other);
    lemma_freed_are_in(m, other, one);
    assert(m.freed(one).free().to_set() =~= m.freed(other).free().to_set());
}

/// Holders that are among others free no slot that those do not.
proof fn lemma_freed_are_in(m: Machine, some: Seq<int>, others: Seq<int>)
    requires
        some.to_set() == others.to_set(),
        m.freed(some).free() == some.map_values(
            |i: int| m.clients[i]->Holding_slot as int,
        ).reverse() + m.free(),
        m.freed(others).free() == others.map_values(
            |i: int| m.clients[i]->Holding_slot as int,
        ).reverse() + m.free(),
    ensures
        m.freed(some).free().to_set().subset_of(m.freed(others).free().to_set()),
{
    let a = m.freed(some).free();
    let b = m.freed(others).free();
    assert forall|s: int| a.contains(s) implies b.contains(s) by {
        let k = choose|k: int| 0 <= k < a.len() && a[k] == s;
        if k < some.len() {
            let holder = some[some.len() - 1 - k];
            assert(some.to_set().contains(holder));
            assert(others.to_set().contains(holder));
            let j = choose|j: int| 0 <= j < others.len() && others[j] == holder;
            assert(b[others.len() - 1 - j] == s);
        } else {
            assert(b[k - some.len() + others.len()] == s);
        }
    }
}

/// A pool none of whose slots is owned, whatever happened before, serves as many
/// clients as it has slots: each slot goes to exactly one of them, and the next
/// client gives up.
pub proof fn law_quiet_pool_refills(m: Machine, takers: Seq<int>, next: int)
    requires
        m.sound(),
        forall|i: int| 0 <= i < m.clients.len() ==> (#[trigger] m.clients[i]).owned() is None,
        takers.no_duplicates(),
        takers.len() == m.capacity(),
        forall|k: int|
            0 <= k < takers.len() ==> 0 <= #[trigger] takers[k] < m.clients.len()
                && m.clients[takers[k]] is Idle,
        0 <= next < m.clients.len(),
        m.clients[next] is Idle,
        !takers.contains(next),
    ensures
        ({
            let n = m.served(takers);
            &&& n.sound()
            &&& forall|k: int| 0 <= k < takers.len() ==> n.clients[#[trigger] takers[k]] is Holding
            &&& forall|j: int, k: int|
                0 <= j < k < takers.len() ==> n.clients[#[trigger] takers[j]]
                    != n.clients[#[trigger] takers[k]]
            &&& forall|slot: int| #[trigger]
                is_slot(slot, m.capacity()) ==> exists|k: int|
                    0 <= k < takers.len() && n.owns(#[trigger] takers[k], slot)
            &&& n.can_run(give_up(next))
        }),
{
    let free = m.free();
    let n = m.served(takers);
    law_quiet_pool_is_all_free(m);
    law_takes_follow_list(m, takers);
    assert forall|j: int, k: int| 0 <= j < k < takers.len() implies n.clients[
        #[trigger] takers[j]
    ] != n.clients[#[trigger] takers[k]] by {
        assert(is_slot(free[j], m.capacity()) && is_slot(free[k], m.capacity()));
        assert(free[j] != free[k]);
    }
    assert forall|slot: int| #[trigger] is_slot(slot, m.capacity()) implies exists|k: int|
        0 <= k < takers.len() && n.owns(#[trigger] takers[k], slot) by {
        assert(m.accounts_for(slot));
        let k = choose|k: int| 0 <= k < free.len() && free[k] == slot;
        assert(n.owns(takers[k], slot));
    }
    law_take_from_exhausted_pool_fails(n, next);
}

} // verus!
