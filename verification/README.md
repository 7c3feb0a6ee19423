# slab-pool

A pool of a fixed number of slots, lent out without a lock and proved in Verus.

```rust
use slab_pool::SlabPool;

let pool = SlabPool::new(4).unwrap();
let mut guard = pool.allocate(42).expect("capacity");
assert_eq!(*guard, 42);
*guard = 99;
drop(guard); // the slot goes back
let again = pool.allocate(7).expect("slot was returned");
assert_eq!(*again, 7);
```

## Layout

- `src/word.rs`: the packed head word, an index and a tag.
- `src/free_list.rs`: the free list as a head word and link words, and what one
  attempt to change it computes.
- `src/list_laws.rs`: what the list keeps while slots leave it and come back.
- `src/shared.rs`: what one observation of the head leads to, and the walk that
  counts free slots.
- `src/shared/atom.rs`: the shared words and all accesses to them. The trusted
  functions that make, load, store and swap an atomic word are here.
- `src/shared/trace.rs`: which accesses a call makes, in which order.
- `src/shared/taking.rs`, `src/shared/giving.rs`: taking a slot, the right to it
  that this gives, and giving it back, which uses the right up.
- `src/pool.rs`: `SlabPool`, `PoolGuard`, `PoolStats`.
- `src/pool/ticket.rs`: rights that go back by themselves when dropped.
- `src/log.rs`: logs of accesses, and the calls that open one.
- `src/machine.rs`, `src/machine_laws.rs`: all interleavings of clients, access
  by access, and what holds of every one: no slot has two owners, none is lost,
  a stale swap fails, the slot freed last is taken first.
- `src/call_laws.rs`: each access in the log of a call is an action of a client
  of the machine, however the others interleave with it.
- `src/error.rs`, `src/text.rs`: errors and their text.
- `app/`: the standard traits `Error`, `Display` and `Debug`.

## Limits

Every access to a shared word is noted in a log that exists for the proofs alone.
The contracts of the pool's functions say which accesses a call adds to it, and
the laws on calls carry them over to the machine: given that each access finds
what the machine holds at that moment, it is an action of the machine.

The machine takes accesses to happen one at a time. A client that observes the
head and then sleeps through 2^32 swaps may see the same tag again; the laws on
taking a slot leave such a client out.

A guard carries its value itself. The pool keeps the slots in order and lends
out the right to them.
