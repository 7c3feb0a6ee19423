use loom::sync::atomic::{AtomicU64, AtomicUsize, Ordering};
use loom::thread;
use slab_pool::free_list::{head_after_pop, head_after_push, top_slot};
use slab_pool::word::pack;
use slab_pool::SlabPool;
use std::sync::Arc;

/// The head of a free list of two slots, over atomics whose interleavings are
/// all explored.
struct LoomFreeList {
    head: AtomicU64,
}

impl LoomFreeList {
    fn new() -> Self {
        Self { head: AtomicU64::new(pack(1, 0)) }
    }

    fn pop(&self, next_of: impl Fn(u64) -> u64) -> Option<u64> {
        let mut head = self.head.load(Ordering::Acquire);
        loop {
            let idx = match top_slot(head, 2) {
                Some(idx) => idx,
                None => return None,
            };
            let new_head = head_after_pop(head, next_of(idx));
            match self.head.compare_exchange_weak(
                head,
                new_head,
                Ordering::AcqRel,
                Ordering::Acquire,
            ) {
                Ok(_) => return Some(idx),
                Err(observed) => head = observed,
            }
        }
    }

    fn push(&self, idx: u64) {
        loop {
            let head = self.head.load(Ordering::Acquire);
            let new_head = head_after_push(head, idx);
            if self
                .head
                .compare_exchange(head, new_head, Ordering::AcqRel, Ordering::Acquire)
                .is_ok()
            {
                return;
            }
        }
    }
}

fn next_of(idx: u64) -> u64 {
    match idx {
        1 => 2,
        2 => 0,
        _ => 0,
    }
}

#[test]
fn loom_concurrent_alloc_free_no_double_alloc() {
    loom::model(|| {
        let list = Arc::new(LoomFreeList::new());
        let allocated = Arc::new(loom::sync::Mutex::new(Vec::<u64>::new()));

        let mut handles = Vec::new();
        for _ in 0..2 {
            let list = Arc::clone(&list);
            let allocated = Arc::clone(&allocated);
            handles.push(thread::spawn(move || {
                if let Some(idx) = list.pop(next_of) {
                    allocated.lock().unwrap().push(idx);
                }
            }));
        }
        for h in handles {
            h.join().unwrap();
        }

        let mut got = allocated.lock().unwrap().clone();
        got.sort_unstable();
        let mut dedup = got.clone();
        dedup.dedup();
        assert_eq!(
            got.len(),
            dedup.len(),
            "duplicate slot allocation under loom interleavings"
        );
        assert!(
            got.len() == 2 && got.contains(&1) && got.contains(&2),
            "expected both free slots claimed, got {got:?}"
        );
    });
}

#[test]
fn loom_push_pop_roundtrip_stable() {
    loom::model(|| {
        let list = Arc::new(LoomFreeList::new());

        let list2 = Arc::clone(&list);
        let producer = thread::spawn(move || list2.pop(next_of));

        if let Some(popped) = producer.join().unwrap() {
            list.push(popped);
            let second = list.pop(|_| 0);
            assert_eq!(second, Some(popped));
        }
    });
}

// The threads switch where `live` is accessed, and not inside the pool.
#[test]
fn guards_taken_between_switches_never_exceed_capacity() {
    loom::model(|| {
        let pool = Arc::new(SlabPool::new(1).unwrap());
        let live = Arc::new(AtomicUsize::new(0));
        let mut handles = Vec::new();
        for _ in 0..2 {
            let pool = Arc::clone(&pool);
            let live = Arc::clone(&live);
            handles.push(thread::spawn(move || {
                for n in 0..2u64 {
                    if let Some(guard) = pool.allocate(n) {
                        let count = live.fetch_add(1, Ordering::AcqRel) + 1;
                        assert!(count <= 1, "{count} live guards of one slot");
                        assert_eq!(*guard, n);
                        live.fetch_sub(1, Ordering::AcqRel);
                        drop(guard);
                    }
                }
            }));
        }
        for h in handles {
            h.join().unwrap();
        }
        assert_eq!(pool.stats().free, 1);
    });
}
