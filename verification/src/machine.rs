//! How clients of one pool interleave.
//!
//! A [`Machine`] is the shared memory of a pool (its head word and link words)
//! and the clients that work on it, each at some point of taking a slot,
//! holding it, or giving it back. One [`Action`] is one access to the shared
//! memory by one client; between two actions of a client any number of actions
//! of the others may fall. A compare-and-swap may fail without cause.
//!
//! The code of a pool changes its head by observing it, letting [`respond`] read
//! or write one link word, and swapping in the word that it answers with. Each of
//! these accesses is an action here. The log of a call shows them, and
//! [`crate::call_laws`] proves that they are actions that the machine can make.
//!
//! [`respond`]: crate::shared::respond
//!
//! `version` counts the swaps that have succeeded, and `since` is its value
//! when a client observed the head. No client can read either: they say which
//! observations are stale.

use vstd::prelude::*;

use crate::error::MAX_SLOTS;
use crate::free_list::{
    free_slots, fresh_head, fresh_links, is_slot, popped_head, pushed_head, threads, Request,
};
use crate::word::{half_range, index_of, tag_of};

verus! {

/// Where a client stands.
pub enum Client {
    /// It holds no slot and is taking none.
    Idle,
    /// It is taking a slot and has observed the head.
    PopObserved { observed: u64, since: nat },
    /// It has also read the link of the slot that it observed on top.
    PopLinked { observed: u64, link: u64, since: nat },
    /// It holds a slot: its guard is live.
    Holding { slot: u64 },
    /// It is giving its slot back and has observed the head.
    PushObserved { slot: u64, observed: u64, since: nat },
    /// It has also written the link of its slot.
    PushLinked { slot: u64, observed: u64, since: nat },
}

/// One access to the shared memory.
pub enum Action {
    /// Loads the head.
    Observe,
    /// Loads the link of the observed top slot.
    ReadLink,
    /// Stores the observed top index into the link of the client's slot.
    WriteLink,
    /// Swaps the head if it is still the observed word, else observes it anew.
    Swap,
    /// Observes the head anew though it may still be the observed word.
    SwapFailsAnyway,
    /// Gives up taking a slot, since the observed head names none.
    Refuse,
}

/// The shared memory of a pool and its clients.
pub struct Machine {
    pub head: u64,
    pub links: Seq<u64>,
    pub version: nat,
    pub clients: Seq<Client>,
}

impl Client {
    /// The slot that is this client's alone, from the swap that took it to the
    /// swap that gives it back.
    pub open spec fn owned(self) -> Option<u64> {
        match self {
            Client::Holding { slot } => Some(slot),
            Client::PushObserved { slot, .. } => Some(slot),
            Client::PushLinked { slot, .. } => Some(slot),
            _ => None,
        }
    }
}

/// Client `i` takes a slot, with no other client in between.
pub open spec fn take(i: int) -> Seq<(int, Action)> {
    seq![(i, Action::Observe), (i, Action::ReadLink), (i, Action::Swap)]
}

/// Client `i` tries to take a slot and gives up, with no other client in
/// between.
pub open spec fn give_up(i: int) -> Seq<(int, Action)> {
    seq![(i, Action::Observe), (i, Action::Refuse)]
}

/// Client `i` gives its slot back, with no other client in between.
pub open spec fn give_back(i: int) -> Seq<(int, Action)> {
    seq![(i, Action::Observe), (i, Action::WriteLink), (i, Action::Swap)]
}

/// The slots that some of `clients` own, in the order of the clients.
pub open spec fn owned_slots(clients: Seq<Client>) -> Seq<int>
    decreases clients.len(),
{
    if clients.len() == 0 {
        Seq::empty()
    } else {
        let others = owned_slots(clients.drop_last());
        match clients.last().owned() {
            Some(slot) => others.push(slot as int),
            None => others,
        }
    }
}

impl Machine {
    /// A new pool, all of whose clients are idle.
    pub open spec fn fresh(capacity: nat, clients: nat) -> Machine {
        Machine {
            head: fresh_head(),
            links: fresh_links(capacity),
            version: 0,
            clients: Seq::new(clients, |i: int| Client::Idle),
        }
    }

    /// A new pool after its first `taken` clients have taken a slot each, in
    /// turn.
    pub open spec fn filled(capacity: nat, clients: nat, taken: nat) -> Machine
        decreases taken,
    {
        if taken == 0 {
            Machine::fresh(capacity, clients)
        } else {
            Machine::filled(capacity, clients, (taken - 1) as nat).run(take(taken - 1))
        }
    }

    /// This machine after `holders` have given their slots back, in turn.
    pub open spec fn freed(self, holders: Seq<int>) -> Machine
        decreases holders.len(),
    {
        if holders.len() == 0 {
            self
        } else {
            self.freed(holders.drop_last()).run(give_back(holders.last()))
        }
    }

    /// This machine after `takers` have taken a slot each, in turn.
    pub open spec fn served(self, takers: Seq<int>) -> Machine
        decreases takers.len(),
    {
        if takers.len() == 0 {
            self
        } else {
            self.served(takers.drop_last()).run(take(takers.last()))
        }
    }

    /// The number of slots.
    pub open spec fn capacity(self) -> nat {
        self.links.len()
    }

    /// The slots on the free list, top first.
    pub open spec fn free(self) -> Seq<int> {
        free_slots(self.head, self.links)
    }

    /// The number of clients that own a slot.
    pub open spec fn live(self) -> nat {
        owned_slots(self.clients).len()
    }

    /// Whether client `i` owns `slot`.
    pub open spec fn owns(self, i: int, slot: int) -> bool {
        &&& 0 <= i < self.clients.len()
        &&& self.clients[i].owned() matches Some(own)
        &&& own == slot
    }

    /// Whether `slot` is free or owned.
    pub open spec fn accounts_for(self, slot: int) -> bool {
        self.free().contains(slot) || exists|i: int| self.owns(i, slot)
    }

    /// This machine with client `i` replaced.
    pub open spec fn with_client(self, i: int, client: Client) -> Machine {
        Machine { clients: self.clients.update(i, client), ..self }
    }

    /// This machine after client `i` has swapped `head` in.
    pub open spec fn swapped(self, i: int, head: u64, client: Client) -> Machine {
        Machine {
            head,
            version: self.version + 1,
            clients: self.clients.update(i, client),
            ..self
        }
    }

    /// Whether client `i` can do `action` next.
    pub open spec fn enabled(self, i: int, action: Action) -> bool {
        &&& 0 <= i < self.clients.len()
        &&& match (self.clients[i], action) {
            (Client::Idle, Action::Observe) => true,
            (Client::Holding { .. }, Action::Observe) => true,
            (Client::PopObserved { observed, .. }, Action::ReadLink) => Request::Pop.accepts(
                observed,
                self.capacity(),
            ),
            (Client::PopObserved { observed, .. }, Action::Refuse) => !Request::Pop.accepts(
                observed,
                self.capacity(),
            ),
            (Client::PushObserved { .. }, Action::WriteLink) => true,
            (Client::PopLinked { .. }, Action::Swap) => true,
            (Client::PopLinked { .. }, Action::SwapFailsAnyway) => true,
            (Client::PushLinked { .. }, Action::Swap) => true,
            (Client::PushLinked { .. }, Action::SwapFailsAnyway) => true,
            _ => false,
        }
    }

    /// The machine after client `i` has done `action`.
    pub open spec fn after(self, i: int, action: Action) -> Machine
        recommends
            self.enabled(i, action),
    {
        let head = self.head;
        let since = self.version;
        match self.clients[i] {
            Client::Idle => self.with_client(i, Client::PopObserved { observed: head, since }),
            Client::Holding { slot } => self.with_client(
                i,
                Client::PushObserved { slot, observed: head, since },
            ),
            Client::PopObserved { observed, since } => if action is ReadLink {
                self.with_client(
                    i,
                    Client::PopLinked { observed, link: self.links[index_of(observed) - 1], since },
                )
            } else {
                self.with_client(i, Client::Idle)
            },
            Client::PushObserved { slot, observed, since } => Machine {
                links: self.links.update(slot - 1, index_of(observed) as u64),
                clients: self.clients.update(i, Client::PushLinked { slot, observed, since }),
                ..self
            },
            Client::PopLinked { observed, link, .. } => if action is Swap && head == observed {
                self.swapped(
                    i,
                    popped_head(observed, link),
                    Client::Holding { slot: index_of(observed) as u64 },
                )
            } else {
                self.with_client(i, Client::PopObserved { observed: head, since })
            },
            Client::PushLinked { slot, observed, .. } => if action is Swap && head == observed {
                self.swapped(i, pushed_head(observed, slot), Client::Idle)
            } else {
                self.with_client(i, Client::PushObserved { slot, observed: head, since })
            },
        }
    }

    /// Whether fewer swaps have succeeded since client `i` observed the head
    /// than there are tags. Only a client that takes a slot must hurry so.
    pub open spec fn in_time(self, i: int) -> bool {
        self.clients[i] matches Client::PopLinked { since, .. } ==> self.version - since
            < half_range()
    }

    /// Whether the clients can act in the order of `schedule`, each swap in
    /// time.
    pub open spec fn can_run(self, schedule: Seq<(int, Action)>) -> bool
        decreases schedule.len(),
    {
        schedule.len() == 0 || {
            let (i, action) = schedule[0];
            &&& self.enabled(i, action)
            &&& action is Swap ==> self.in_time(i)
            &&& self.after(i, action).can_run(schedule.drop_first())
        }
    }

    /// The machine after the clients have acted in the order of `schedule`.
    pub open spec fn run(self, schedule: Seq<(int, Action)>) -> Machine
        decreases schedule.len(),
    {
        if schedule.len() == 0 {
            self
        } else {
            self.after(schedule[0].0, schedule[0].1).run(schedule.drop_first())
        }
    }

    /// The head word that client `i` observed and the version at which it did,
    /// if it is about to swap.
    pub open spec fn observation(self, i: int) -> Option<(u64, nat)> {
        match self.clients[i] {
            Client::PopLinked { observed, since, .. } => Some((observed, since)),
            Client::PushLinked { observed, since, .. } => Some((observed, since)),
            _ => None,
        }
    }

    /// Whether `observed` is a word that the head has held, at version `since`.
    pub open spec fn was_head(self, observed: u64, since: nat) -> bool {
        &&& since <= self.version
        &&& tag_of(observed) == since as int % half_range()
        &&& index_of(observed) <= self.capacity()
        &&& since == self.version ==> observed == self.head
    }

    /// Whether `slot` is a slot off the free list.
    pub open spec fn is_off_list(self, slot: u64) -> bool {
        &&& is_slot(slot as int, self.capacity())
        &&& !self.free().contains(slot as int)
    }

    /// What holds of a client at every moment.
    pub open spec fn client_ok(self, client: Client) -> bool {
        match client {
            Client::Idle => true,
            Client::PopObserved { observed, since } => self.was_head(observed, since),
            Client::PopLinked { observed, link, since } => {
                &&& self.was_head(observed, since)
                &&& is_slot(index_of(observed), self.capacity())
                &&& link <= self.capacity()
                &&& since == self.version ==> link == self.links[index_of(observed) - 1]
            },
            Client::Holding { slot } => self.is_off_list(slot),
            Client::PushObserved { slot, observed, since } => {
                &&& self.is_off_list(slot)
                &&& self.was_head(observed, since)
            },
            Client::PushLinked { slot, observed, since } => {
                &&& self.is_off_list(slot)
                &&& self.was_head(observed, since)
                &&& self.links[slot - 1] == index_of(observed)
            },
        }
    }

    /// What holds of the machine at every moment: the free list ends and meets
    /// no slot twice, no slot has two owners or is owned while free, and every
    /// slot is free or owned.
    pub open spec fn sound(self) -> bool {
        &&& 1 <= self.capacity() <= MAX_SLOTS
        &&& tag_of(self.head) == self.version as int % half_range()
        &&& threads(index_of(self.head), self.links, self.free())
        &&& forall|k: int|
            0 <= k < self.capacity() ==> #[trigger] self.links[k] <= self.capacity()
        &&& forall|i: int|
            0 <= i < self.clients.len() ==> self.client_ok(#[trigger] self.clients[i])
        &&& forall|i: int, j: int, slot: int|
            #[trigger] self.owns(i, slot) && #[trigger] self.owns(j, slot) ==> i == j
        &&& forall|slot: int|
            is_slot(slot, self.capacity()) ==> #[trigger] self.accounts_for(slot)
    }
}

} // verus!
