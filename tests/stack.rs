use segkernel::config::{
    HOT_SPLIT_DETECTION_THRESHOLD, HOT_SPLIT_EXTRA_ALLOC_SIZE, HOT_SPLIT_PREVENTION_CACHE_SIZE,
    STACKLET_ADDITION_ALLOC_SIZE,
};
use segkernel::guard::{GuardAction, OverflowGuard};
use segkernel::segstack::{grow_at_site, reclaim_stack, shrink_stack};
use segkernel::hot_split::{HotSplitCache, HotSplitEntry};
use segkernel::stacklet::{addr_of_link, link_of, GrowError, Stacklet, StackletAllocator};

fn total_held(a: &StackletAllocator) -> usize {
    (0..16).map(|t| a.used(t)).sum()
}

#[test]
fn allocator_rejects_heap_beyond_link_span() {
    assert!(StackletAllocator::new(0x4_0001).is_none());
    let a = StackletAllocator::new(0x4_0000).unwrap();
    assert_eq!(a.free_bytes, 0x4_0000);
}

#[test]
fn grow_grants_request_plus_padding() {
    let mut a = StackletAllocator::new(4096).unwrap();
    assert_eq!(a.grow(2, 100, false), Ok(100 + STACKLET_ADDITION_ALLOC_SIZE));
    assert_eq!(a.used(2), 164);
    assert_eq!(a.free_bytes, 4096 - 164);
    assert_eq!(a.stacklets, vec![Stacklet { owner: 2, size: 164 }]);
}

#[test]
fn grow_from_hot_site_gets_extra_headroom() {
    let mut a = StackletAllocator::new(4096).unwrap();
    assert_eq!(
        a.grow(0, 100, true),
        Ok(100 + STACKLET_ADDITION_ALLOC_SIZE + HOT_SPLIT_EXTRA_ALLOC_SIZE)
    );
    assert_eq!(a.used(0), 676);
}

#[test]
fn grow_out_of_memory_changes_nothing() {
    let mut a = StackletAllocator::new(200).unwrap();
    assert_eq!(a.grow(1, 100, false), Ok(164));
    assert_eq!(a.grow(1, 100, false), Err(GrowError::OutOfMemory));
    assert_eq!(a.free_bytes, 36);
    assert_eq!(a.used(1), 164);
    assert_eq!(a.grow(3, usize::MAX, false), Err(GrowError::OutOfMemory));
}

#[test]
fn grow_beyond_limit_is_refused() {
    let mut a = StackletAllocator::new(0x4_0000).unwrap();
    assert!(a.set_limit(5, Some(300)));
    assert_eq!(a.grow(5, 100, false), Ok(164));
    assert_eq!(a.grow(5, 100, false), Err(GrowError::LimitExceeded));
    assert_eq!(a.grow(5, usize::MAX, false), Err(GrowError::LimitExceeded));
    assert_eq!(a.used(5), 164);
    assert!(!a.set_limit(5, Some(100)));
    assert!(a.set_limit(5, None));
    assert_eq!(a.grow(5, 100, false), Ok(164));
}

#[test]
fn unbounded_recursion_stops_at_limit() {
    let mut a = StackletAllocator::new(0x2_0000).unwrap();
    assert!(a.set_limit(3, Some(4096)));
    let mut guard = OverflowGuard::new();
    let mut frames = 0;
    loop {
        let r = a.grow(3, 128, false);
        match guard.on_growth(r) {
            GuardAction::Proceed => frames += 1,
            GuardAction::Divert => break,
            GuardAction::Defer => panic!("no release handler is running"),
        }
        assert!(a.used(3) <= 4096);
    }
    assert_eq!(frames, 4096 / 192);
    assert_eq!(a.release_all(3), frames * 192);
    assert_eq!(a.free_bytes, 0x2_0000);
}

#[test]
fn shrink_frees_the_top_stacklet_of_the_task() {
    let mut a = StackletAllocator::new(4096).unwrap();
    a.grow(1, 10, false).unwrap();
    a.grow(2, 20, false).unwrap();
    a.grow(1, 30, false).unwrap();
    assert_eq!(a.shrink(1), Some(94));
    assert_eq!(a.shrink(1), Some(74));
    assert_eq!(a.shrink(1), None);
    assert_eq!(a.used(2), 84);
    assert_eq!(a.free_bytes, 4096 - 84);
    assert_eq!(a.shrink(7), None);
}

#[test]
fn grow_and_shrink_sequences_conserve_the_heap() {
    let heap = 8192;
    let mut a = StackletAllocator::new(heap).unwrap();
    let mut seed: usize = 7;
    for step in 0..500 {
        seed = seed.wrapping_mul(1103515245).wrapping_add(12345) % 65536;
        let task = seed % 16;
        if step % 3 == 2 {
            let _ = a.shrink(task);
        } else if step % 50 == 49 {
            let _ = a.release_all(task);
        } else {
            let _ = a.grow(task, seed % 700, seed % 5 == 0);
        }
        assert_eq!(a.free_bytes + total_held(&a), heap);
    }
}

#[test]
fn release_all_returns_every_stacklet() {
    let mut a = StackletAllocator::new(4096).unwrap();
    a.grow(4, 36, false).unwrap();
    a.grow(9, 36, false).unwrap();
    a.grow(4, 136, false).unwrap();
    assert_eq!(a.release_all(4), 300);
    assert_eq!(a.used(4), 0);
    assert_eq!(a.used(9), 100);
    assert_eq!(a.free_bytes, 3996);
    assert_eq!(a.release_all(4), 0);
}

#[test]
fn compact_links_cover_two_hundred_fifty_six_kib() {
    assert_eq!(link_of(0x2000_0000), Some(0));
    assert_eq!(link_of(0x2000_0104), Some(0x41));
    assert_eq!(link_of(0x2003_fffc), Some(0xffff));
    assert_eq!(link_of(0x2004_0000), None);
    assert_eq!(link_of(0x1fff_fffc), None);
    assert_eq!(link_of(0x2000_0102), None);
    assert_eq!(addr_of_link(0x41), 0x2000_0104);
    assert_eq!(addr_of_link(0xffff), 0x2003_fffc);
    for l in [0u16, 1, 77, 4096, 65535] {
        assert_eq!(link_of(addr_of_link(l)), Some(l));
    }
}

#[test]
fn site_becomes_hot_at_threshold() {
    let mut c = HotSplitCache::new();
    for n in 1..HOT_SPLIT_DETECTION_THRESHOLD {
        assert!(!c.record_split(0x800_1234, 1), "count {} is not hot yet", n);
    }
    assert!(c.record_split(0x800_1234, 1));
    assert!(c.is_hot(0x800_1234));
    assert!(!c.is_hot(0x800_0000));
}

#[test]
fn full_cache_evicts_least_recently_used() {
    let mut c = HotSplitCache::new();
    for site in [1u32, 2, 3, 4] {
        c.record_split(site, 1);
    }
    c.record_split(1, 1);
    c.record_split(5, 1);
    assert_eq!(c.entries.len(), HOT_SPLIT_PREVENTION_CACHE_SIZE);
    assert_eq!(
        c.entries,
        vec![
            HotSplitEntry { site: 3, count: 1, stacklet: 1 },
            HotSplitEntry { site: 4, count: 1, stacklet: 1 },
            HotSplitEntry { site: 1, count: 2, stacklet: 1 },
            HotSplitEntry { site: 5, count: 1, stacklet: 1 },
        ]
    );
}

#[test]
fn cache_never_exceeds_capacity() {
    let mut c = HotSplitCache::new();
    for i in 0..1000u32 {
        c.record_split((i * 7919) % 13, (i % 5) as usize);
        if i % 37 == 0 {
            c.stacklet_freed(3);
        }
        assert!(c.entries.len() <= HOT_SPLIT_PREVENTION_CACHE_SIZE);
    }
}

#[test]
fn freeing_a_stacklet_resets_only_its_counts() {
    let mut c = HotSplitCache::new();
    for _ in 0..10 {
        c.record_split(9, 2);
    }
    c.record_split(8, 2);
    c.record_split(7, 1);
    c.stacklet_freed(2);
    assert_eq!(
        c.entries,
        vec![
            HotSplitEntry { site: 9, count: 10, stacklet: 2 },
            HotSplitEntry { site: 8, count: 0, stacklet: 2 },
            HotSplitEntry { site: 7, count: 1, stacklet: 1 },
        ]
    );
    assert!(c.is_hot(9));
    c.record_split(7, 2);
    assert_eq!(c.entries[2], HotSplitEntry { site: 7, count: 1, stacklet: 2 });
}

#[test]
fn diversion_waits_for_release_handler() {
    let mut g = OverflowGuard::new();
    g.enter_release_handler();
    g.enter_release_handler();
    assert_eq!(g.on_growth(Err(GrowError::LimitExceeded)), GuardAction::Defer);
    assert_eq!(g.on_growth(Ok(64)), GuardAction::Proceed);
    assert!(!g.exit_release_handler());
    assert!(g.exit_release_handler());
    assert!(!g.diversion_pending);
    assert_eq!(g.on_growth(Err(GrowError::OutOfMemory)), GuardAction::Divert);
}

#[test]
fn nested_growth_counts_per_stacklet() {
    let mut a = StackletAllocator::new(0x1_0000).unwrap();
    let mut c = HotSplitCache::new();
    for _ in 0..12 {
        assert_eq!(grow_at_site(&mut a, &mut c, 1, 0xbeef, 40), Ok(104));
    }
    assert_eq!(c.entries, vec![HotSplitEntry { site: 0xbeef, count: 1, stacklet: 11 }]);
    assert_eq!(grow_at_site(&mut a, &mut c, 1, 0xcafe, 40), Ok(104));
    assert_eq!(shrink_stack(&mut a, &mut c, 1), Some(104));
    assert_eq!(c.entries[1], HotSplitEntry { site: 0xcafe, count: 1, stacklet: 12 });
    assert_eq!(shrink_stack(&mut a, &mut c, 1), Some(104));
    assert_eq!(c.entries[1], HotSplitEntry { site: 0xcafe, count: 0, stacklet: 12 });
    assert_eq!(c.entries[0], HotSplitEntry { site: 0xbeef, count: 1, stacklet: 11 });
    assert_eq!(a.used(1), 11 * 104);
    assert_eq!(shrink_stack(&mut a, &mut c, 2), None);
}

#[test]
fn grow_shrink_cycles_from_one_site_become_hot() {
    let mut a = StackletAllocator::new(0x1_0000).unwrap();
    let mut c = HotSplitCache::new();
    assert_eq!(grow_at_site(&mut a, &mut c, 3, 0x10, 200), Ok(264));
    for cycle in 1..=12u32 {
        let r = grow_at_site(&mut a, &mut c, 3, 0x20, 40);
        if cycle < HOT_SPLIT_DETECTION_THRESHOLD {
            assert_eq!(r, Ok(104), "cycle {}", cycle);
        } else {
            assert_eq!(r, Ok(104 + HOT_SPLIT_EXTRA_ALLOC_SIZE), "cycle {}", cycle);
        }
        assert_eq!(shrink_stack(&mut a, &mut c, 3), r.ok());
        assert_eq!(a.used(3), 264);
    }
    assert!(c.is_hot(0x20));
    assert!(!c.is_hot(0x10));
}

#[test]
fn reclaimed_task_returns_its_stack_and_cache() {
    let mut a = StackletAllocator::new(4096).unwrap();
    let mut c = HotSplitCache::new();
    grow_at_site(&mut a, &mut c, 6, 1, 36).unwrap();
    grow_at_site(&mut a, &mut c, 6, 2, 136).unwrap();
    grow_at_site(&mut a, &mut c, 8, 3, 36).unwrap();
    assert_eq!(reclaim_stack(&mut a, &mut c, 6), 300);
    assert!(c.entries.is_empty());
    assert_eq!(a.used(8), 100);
    assert_eq!(a.free_bytes, 3996);
}
