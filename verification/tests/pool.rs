use slab_pool::error::MAX_SLOTS;
use slab_pool::{PoolGuard, PoolStats, SlabPool, SlabPoolError};
use std::cell::{Cell, RefCell};
use std::collections::{BTreeMap, HashSet};
use std::rc::Rc;

#[test]
fn basic_alloc_deref_drop() {
    let pool = SlabPool::new(4).unwrap();
    let mut g = pool.allocate(42).unwrap();
    assert_eq!(*g, 42);
    *g = 99;
    assert_eq!(*g, 99);
    drop(g);
    let g2 = pool.allocate(7).unwrap();
    assert_eq!(*g2, 7);
}

#[test]
fn exhaustion_returns_none() {
    let pool = SlabPool::new(2).unwrap();
    let a = pool.allocate(1).unwrap();
    let b = pool.allocate(2).unwrap();
    assert!(pool.allocate(3).is_none(), "pool exhausted");
    drop(a);
    let c = pool.allocate(3).unwrap();
    assert_eq!(*c, 3);
    drop(b);
    drop(c);
}

#[test]
fn zero_capacity_is_error() {
    assert_eq!(
        SlabPool::<u8>::new(0).err().unwrap(),
        SlabPoolError::ZeroCapacity
    );
}

#[test]
fn lifo_reuse_order() {
    let pool = SlabPool::new(4).unwrap();
    let a = pool.allocate(1).unwrap();
    let a_idx = a.slot_index();
    let b = pool.allocate(2).unwrap();
    let b_idx = b.slot_index();
    let c = pool.allocate(3).unwrap();
    let c_idx = c.slot_index();
    drop(c);
    drop(b);
    // The slot freed last is the first to be taken again.
    let next = pool.allocate(4).unwrap();
    assert_eq!(next.slot_index(), b_idx);
    // The next free slot is the one freed before it.
    let next2 = pool.allocate(5).unwrap();
    assert_eq!(next2.slot_index(), c_idx);
    drop(next);
    drop(next2);
    drop(a);
    let next3 = pool.allocate(6).unwrap();
    assert_eq!(next3.slot_index(), a_idx);
    drop(next3);
}

#[test]
fn value_integrity_across_realloc() {
    let pool = SlabPool::new(2).unwrap();
    {
        let mut g = pool.allocate(String::from("hello")).unwrap();
        g.push_str(" world");
        assert_eq!(&**g, "hello world");
    }
    let g = pool.allocate(String::from("replacement")).unwrap();
    assert_eq!(&**g, "replacement");
}

#[test]
fn too_many_slots_are_an_error() {
    assert_eq!(MAX_SLOTS, 4_294_967_294);
    for capacity in [MAX_SLOTS + 1, MAX_SLOTS + 2, usize::MAX] {
        assert_eq!(
            SlabPool::<u8>::new(capacity).err().unwrap(),
            SlabPoolError::CapacityOverflow(capacity)
        );
    }
}

#[test]
fn messages_name_the_numbers() {
    assert_eq!(
        SlabPoolError::ZeroCapacity.message(),
        "capacity must be >= 1, got 0"
    );
    assert_eq!(
        SlabPoolError::CapacityOverflow(5_000_000_000).message(),
        "capacity 5000000000 exceeds the maximum addressable slot count of 4294967294"
    );
}

#[test]
fn debug_text_shows_the_capacity_alone() {
    let pool = SlabPool::new(10).unwrap();
    let _held = pool.allocate("secret").unwrap();
    assert_eq!(pool.debug_text(false), "SlabPool { capacity: 10, .. }");
    assert_eq!(
        pool.debug_text(true),
        "SlabPool {\n    capacity: 10,\n    ..\n}"
    );
}

#[test]
fn capacity_and_stats_at_rest() {
    let pool = SlabPool::new(3).unwrap();
    assert_eq!(pool.capacity(), 3);
    assert_eq!(pool.stats(), PoolStats { capacity: 3, free: 3 });
    let a = pool.allocate('a').unwrap();
    assert_eq!(pool.stats(), PoolStats { capacity: 3, free: 2 });
    let b = pool.allocate('b').unwrap();
    let c = pool.allocate('c').unwrap();
    assert_eq!(pool.stats(), PoolStats { capacity: 3, free: 0 });
    drop(b);
    assert_eq!(pool.stats(), PoolStats { capacity: 3, free: 1 });
    drop(a);
    drop(c);
    assert_eq!(pool.stats(), PoolStats { capacity: 3, free: 3 });
}

#[test]
fn fresh_pool_hands_out_slots_in_order() {
    let pool = SlabPool::new(5).unwrap();
    let mut guards = Vec::new();
    for n in 1..=5usize {
        let guard = pool.allocate(n).unwrap();
        assert_eq!(guard.slot_index(), n);
        guards.push(guard);
    }
    assert!(pool.allocate(6).is_none());
}

#[test]
fn single_slot_pool_cycles() {
    let pool = SlabPool::new(1).unwrap();
    for n in 0..1000 {
        let guard = pool.allocate(n).unwrap();
        assert_eq!(guard.slot_index(), 1);
        assert_eq!(*guard, n);
        assert!(pool.allocate(n).is_none());
    }
    assert_eq!(pool.stats().free, 1);
}

/// A value that notes, when it is dropped, how many slots of its pool are free.
struct Noisy {
    name: u32,
    log: Rc<RefCell<Vec<(u32, usize)>>>,
    pool: Rc<SlabPool<Noisy>>,
}

impl Drop for Noisy {
    fn drop(&mut self) {
        let free = self.pool.stats().free;
        self.log.borrow_mut().push((self.name, free));
    }
}

#[test]
fn value_is_dropped_once_and_before_its_slot_is_free() {
    let log = Rc::new(RefCell::new(Vec::new()));
    let pool = Rc::new(SlabPool::new(2).unwrap());
    let noisy = |name: u32| Noisy { name, log: Rc::clone(&log), pool: Rc::clone(&pool) };
    let a = pool.allocate(noisy(1)).unwrap();
    assert!(log.borrow().is_empty());
    drop(a);
    assert_eq!(*log.borrow(), vec![(1, 1)]);
    assert_eq!(pool.stats().free, 2);
    let b = pool.allocate(noisy(2)).unwrap();
    let mut c = pool.allocate(noisy(3)).unwrap();
    // A refused value is dropped with the request.
    assert!(pool.allocate(noisy(4)).is_none());
    // A replaced value is dropped at once, and the guard keeps its slot.
    let slot = c.slot_index();
    *c = noisy(5);
    assert_eq!(c.slot_index(), slot);
    drop(c);
    drop(b);
    assert_eq!(*log.borrow(), vec![(1, 1), (4, 0), (3, 0), (5, 0), (2, 1)]);
    assert_eq!(pool.stats().free, 2);
}

#[test]
fn slots_freed_in_turn_come_back_in_reverse() {
    let pool = SlabPool::new(6).unwrap();
    let guards: Vec<_> = (0..5).map(|n| pool.allocate(n).unwrap()).collect();
    let mut freed = Vec::new();
    for guard in guards {
        freed.push(guard.slot_index());
        drop(guard);
    }
    let again: Vec<_> = (0..6).map(|n| pool.allocate(n).unwrap()).collect();
    let taken: Vec<usize> = again.iter().map(|guard| guard.slot_index()).collect();
    freed.reverse();
    assert_eq!(&taken[..5], &freed[..]);
    assert_eq!(taken[5], 6);
}

#[test]
fn giving_back_at_once_restores_the_order() {
    let order = |churn: bool| {
        let pool = SlabPool::new(5).unwrap();
        let held = pool.allocate(1).unwrap();
        drop((pool.allocate(2).unwrap(), pool.allocate(3).unwrap()));
        let before = pool.stats();
        if churn {
            for n in 0..10 {
                drop(pool.allocate(n).unwrap());
            }
        }
        assert_eq!(pool.stats(), before);
        assert_eq!((*held, held.slot_index()), (1, 1));
        let rest: Vec<_> = (0..4).map(|n| pool.allocate(n).unwrap()).collect();
        assert!(pool.allocate(9).is_none());
        rest.iter().map(|guard| guard.slot_index()).collect::<Vec<usize>>()
    };
    assert_eq!(order(true), order(false));
}

#[test]
fn dropping_a_guard_leaves_the_others() {
    let pool = SlabPool::new(4).unwrap();
    let mut guards: Vec<_> = (10..14).map(|n| pool.allocate(n).unwrap()).collect();
    let kept: Vec<(usize, i32)> =
        [0, 2, 3].iter().map(|k| (guards[*k].slot_index(), *guards[*k])).collect();
    let gone = guards.remove(1).slot_index();
    let now: Vec<(usize, i32)> = guards.iter().map(|g| (g.slot_index(), **g)).collect();
    assert_eq!(now, kept);
    assert_eq!(pool.capacity(), 4);
    let back = pool.allocate(99).unwrap();
    assert_eq!((back.slot_index(), *back), (gone, 99));
    assert!(pool.allocate(0).is_none());
}

#[test]
fn quiet_pool_refills_with_every_slot() {
    let pool = SlabPool::new(4).unwrap();
    let a = pool.allocate(0).unwrap();
    let b = pool.allocate(0).unwrap();
    drop(a);
    let c = pool.allocate(0).unwrap();
    drop(b);
    drop(c);
    let guards: Vec<_> = (0..4).map(|n| pool.allocate(n).unwrap()).collect();
    let mut slots: Vec<usize> = guards.iter().map(|g| g.slot_index()).collect();
    slots.sort_unstable();
    assert_eq!(slots, vec![1, 2, 3, 4]);
    assert!(pool.allocate(4).is_none());
}

#[test]
fn pools_and_guards_cross_threads_where_values_do() {
    fn shared<T: Sync>(_: &T) {}
    fn sent<T: Send>(_: &T) {}
    let pool: SlabPool<Cell<u8>> = SlabPool::new(1).unwrap();
    shared(&pool);
    sent(&pool);
    let guard = pool.allocate(Cell::new(1)).unwrap();
    sent(&guard);
}

/// Numbers that look random and are the same every time.
struct Dice(u64);

impl Dice {
    fn roll(&mut self) -> u64 {
        self.0 = self.0.wrapping_mul(6364136223846793005).wrapping_add(1442695040888963407);
        self.0 >> 33
    }
}

#[test]
fn model_tracks_allocation_exactly() {
    const CAP: usize = 8;
    for seed in 0..200u64 {
        let mut dice = Dice(seed);
        let pool = SlabPool::new(CAP).unwrap();
        let mut model: BTreeMap<usize, u64> = BTreeMap::new();
        let mut guards: BTreeMap<usize, PoolGuard<'_, u64>> = BTreeMap::new();
        for step in 0..300 {
            if dice.roll() % 2 == 0 {
                let v = dice.roll();
                if model.len() < CAP {
                    let guard = pool.allocate(v).unwrap();
                    let idx = guard.slot_index();
                    assert!(1 <= idx && idx <= CAP);
                    assert!(!model.contains_key(&idx), "step {step}: slot {idx} taken twice");
                    assert_eq!(*guard, v);
                    model.insert(idx, v);
                    guards.insert(idx, guard);
                } else {
                    assert!(pool.allocate(v).is_none());
                }
            } else if !model.is_empty() {
                let nth = (dice.roll() as usize) % model.len();
                let idx = *model.keys().nth(nth).unwrap();
                assert_eq!(model.remove(&idx), guards.remove(&idx).map(|g| *g));
            }
            assert_eq!(pool.stats().free, CAP - model.len());
        }
        guards.clear();
        assert_eq!(pool.stats().free, CAP);
        let mut cycle = Vec::new();
        for v in 0..CAP as u64 {
            cycle.push(pool.allocate(v).unwrap());
        }
        assert!(pool.allocate(0).is_none(), "pool full after refill");
    }
}

#[test]
fn no_double_free_detected() {
    let pool = SlabPool::new(8).unwrap();
    let mut dice = Dice(7);
    let mut held = HashSet::new();
    for _ in 0..100 {
        let v = dice.roll();
        let guard = pool.allocate(v).unwrap();
        let idx = guard.slot_index();
        assert!(held.insert(idx), "slot {idx} handed out twice");
        assert_eq!(*guard, v);
        drop(guard);
        held.remove(&idx);
    }
}

#[test]
fn live_never_exceeds_capacity() {
    for take_a in [false, true] {
        for take_b in [false, true] {
            let pool: SlabPool<u64> = SlabPool::new(2).unwrap();
            let ga = if take_a { pool.allocate(1) } else { None };
            let gb = if take_b { pool.allocate(2) } else { None };
            let live = usize::from(ga.is_some()) + usize::from(gb.is_some());
            assert!(live <= 2);
            assert_eq!(pool.stats().free + live, 2);
            if live == 2 {
                assert!(pool.allocate(3).is_none(), "full pool must refuse");
            }
            drop(ga);
            drop(gb);
            assert_eq!(pool.stats().free, 2);
        }
    }
}

#[test]
fn aba_freed_slot_is_reusable() {
    let pool: SlabPool<u64> = SlabPool::new(2).unwrap();
    let g1 = pool.allocate(10).unwrap();
    drop(g1);
    let g2 = pool.allocate(20).unwrap();
    assert_eq!(*g2, 20);
    drop(g2);
    assert_eq!(pool.stats().free, 2);

    let g1 = pool.allocate(10).unwrap();
    let g2 = pool.allocate(20).unwrap();
    drop(g1);
    drop(g2);
    let g3 = pool.allocate(30).unwrap();
    assert_eq!(*g3, 30);
    drop(g3);
    assert_eq!(pool.stats().free, 2);
}

#[test]
fn each_call_moves_one_slot() {
    let pool = SlabPool::new(3).unwrap();
    let mut guards = Vec::new();
    for taken in 1..=3 {
        guards.push(pool.allocate(taken).unwrap());
        assert_eq!(pool.stats().free, 3 - taken);
        assert_eq!(guards[taken - 1].slot_index(), taken);
    }
    for given in 1..=3 {
        drop(guards.remove(0));
        assert_eq!(pool.stats().free, given);
    }
}

#[test]
fn refused_call_changes_nothing() {
    let pool = SlabPool::new(2).unwrap();
    let a = pool.allocate('a').unwrap();
    let b = pool.allocate('b').unwrap();
    for _ in 0..3 {
        assert!(pool.allocate('c').is_none());
        assert_eq!(pool.stats().free, 0);
    }
    assert_eq!((a.slot_index(), b.slot_index()), (1, 2));
    drop(a);
    assert_eq!(pool.allocate('d').unwrap().slot_index(), 1);
    assert_eq!(*b, 'b');
}

#[test]
fn counting_changes_nothing() {
    let pool = SlabPool::new(3).unwrap();
    let (a, b) = (pool.allocate(1).unwrap(), pool.allocate(2).unwrap());
    drop(a);
    for _ in 0..3 {
        assert_eq!(pool.stats(), PoolStats { capacity: 3, free: 2 });
    }
    let (c, d) = (pool.allocate(3).unwrap(), pool.allocate(4).unwrap());
    assert_eq!((c.slot_index(), b.slot_index(), d.slot_index()), (1, 2, 3));
}
