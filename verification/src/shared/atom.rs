//! Words that clients share, and the accesses to them.
//!
//! What can be done to a word is done here, each by one trusted function that
//! notes it in a log. Nothing else reaches the atomic word.

use std::sync::atomic::{AtomicU64, Ordering};
use vstd::prelude::*;

use super::respond;
use super::trace::{changed, refused};
use crate::free_list::Request;
use crate::log::Log;

verus! {

/// The values that an atomic word takes, in turn, from when it is made to when
/// it is gone.
pub uninterp spec fn values_in_turn(word: AtomicU64) -> Seq<u64>;

/// The values that loads of an atomic word return, at one time or another.
pub uninterp spec fn values_read(word: AtomicU64) -> Set<u64>;

/// A word that any number of clients read and write, one access at a time.
pub struct SharedWord {
    word: AtomicU64,
}

/// One access to a shared word.
pub enum Access {
    /// `value` was read from `word`.
    Load { word: SharedWord, value: u64 },
    /// `value` was written to `word`.
    Store { word: SharedWord, value: u64 },
    /// `word` held `observed`, and `value` was put in its place.
    Swap { word: SharedWord, observed: u64, value: u64 },
}

/// Makes a word, by `AtomicU64::new`. Its first value is `value`.
#[verifier::external_body]
pub(super) fn make_word(value: u64) -> (word: SharedWord)
    ensures
        values_in_turn(word.atomic()).len() > 0,
        values_in_turn(word.atomic())[0] == value,
    opens_invariants none
    no_unwind
{
    SharedWord { word: AtomicU64::new(value) }
}

/// Reads a word, by `AtomicU64::load`, which does not panic under this ordering,
/// and notes it.
///
/// The value read is one that the word takes. Which of them is left unsaid: the
/// clients that share the word decide. The note is of this one access.
#[verifier::external_body]
pub(super) fn load_word(word: &SharedWord, log: &mut Log) -> (value: u64)
    ensures
        values_read(word.atomic()).contains(value),
        values_in_turn(word.atomic()).contains(value),
        final(log).made() == old(log).made().push(Access::Load { word: *word, value }),
    opens_invariants none
    no_unwind
{
    word.word.load(Ordering::Acquire)
}

/// Writes a word, by `AtomicU64::store`, which does not panic under this
/// ordering, notes it, and returns what was written.
///
/// The value written is one that the word takes. How long it keeps it is left
/// unsaid: the clients that share the word decide. The note is of this one
/// access.
#[verifier::external_body]
pub(super) fn store_word(word: &SharedWord, value: u64, log: &mut Log) -> (stored: u64)
    ensures
        stored == value,
        values_in_turn(word.atomic()).contains(stored),
        final(log).made() == old(log).made().push(Access::Store { word: *word, value }),
    opens_invariants none
    no_unwind
{
    word.word.store(value, Ordering::Release);
    value
}

impl SharedWord {
    /// The atomic word itself.
    pub closed spec fn atomic(self) -> AtomicU64 {
        self.word
    }

    /// The values that this word takes, in turn.
    pub open spec fn in_turn(self) -> Seq<u64> {
        values_in_turn(self.atomic())
    }

    /// The values that clients read from this word.
    pub open spec fn read(self) -> Set<u64> {
        values_read(self.atomic())
    }

    /// The value that this word was made with.
    pub open spec fn initial(self) -> u64 {
        self.in_turn()[0]
    }
}

/// Changes the head as `request` asks, by `AtomicU64::fetch_update`.
///
/// `fetch_update` loads the word and applies a function to what it observes.
/// While the function answers with a word, it tries to swap that word in for the
/// one observed. If that fails, which another client or the machine may cause,
/// the failed swap has loaded the word, and it starts again from there. It
/// returns the word that it replaced, which is the value of the head right
/// before the one that the function answered with, or the word on which the
/// function answered with none.
///
/// The function here is [`respond`], which notes its own accesses. The accesses
/// that `fetch_update` makes are noted as well: the loads, and the swap if there
/// is one. Neither `respond` nor `fetch_update` under these orderings panics.
/// Which words are observed, and how many, is left unsaid: the other clients
/// decide.
#[verifier::external_body]
pub(super) fn change_head(
    head: &SharedWord,
    links: &Vec<SharedWord>,
    request: Request,
    log: &mut Log,
) -> (replaced: Result<u64, u64>)
    requires
        links@.len() <= u32::MAX,
        request.fits(links@.len()),
    ensures
        match replaced {
            Ok(observed) => exists|seen: Seq<u64>, words: Seq<u64>| #[trigger]
                changed(*head, links@, request, old(log).made(), final(log).made(), seen, words)
                    && seen.last() == observed,
            Err(observed) => exists|seen: Seq<u64>, words: Seq<u64>| #[trigger]
                refused(*head, links@, request, old(log).made(), final(log).made(), seen, words)
                    && seen.last() == observed,
        },
    opens_invariants none
    no_unwind
{
    head.word.fetch_update(
        Ordering::AcqRel,
        Ordering::Acquire,
        |observed| respond(links, request, observed, log),
    )
}

} // verus!
