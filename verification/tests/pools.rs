use conrt::coio::classes;
use conrt::coio::classes::SizeClass;
use conrt::coio::fixed::FixedSlab;
use conrt::coio::levels;
use conrt::coio::levels::Level;
use conrt::coio::pbuf::ProvidedBufferPool;
use conrt::coio::pool;
use conrt::coio::pool::Pool;
use conrt::coio::pool::Slab;
use conrt::coio::wbuf::WriteBufferPool;

fn make_slab(count: u32, size: u32) -> (FixedSlab, Vec<u8>) {
    let memory = vec![0u8; count as usize * size as usize];
    (FixedSlab::new(0, size, count, 0), memory)
}

#[test]
fn acquire_drop_roundtrip() {
    let (mut slab, _memory) = make_slab(4, 16);
    let a = slab.acquire_slot().unwrap();
    let b = slab.acquire_slot().unwrap();
    assert_ne!(a, b);
    slab.drop_view(true, a);
    assert_eq!(slab.acquire_slot().unwrap(), a);
}

#[test]
fn fixed_acquire_exhaustion() {
    let (mut slab, _memory) = make_slab(4, 16);
    for _ in 0..4 {
        assert!(slab.acquire_slot().is_some());
    }
    assert_eq!(slab.acquire_slot(), None);
    slab.drop_view(true, 2);
    assert_eq!(slab.acquire_slot(), Some(2));
}

#[test]
fn shared_borrow_returns_to_free_at_zero() {
    let (mut slab, _memory) = make_slab(2, 16);
    let slot = slab.acquire_slot_shared().unwrap();
    slab.tracker.clone_shared(slot);
    assert_eq!(slab.tracker.borrows(slot), 2);
    assert_eq!(slab.free_count(), 1);
    slab.drop_view(false, slot);
    assert_eq!(slab.tracker.borrows(slot), 1);
    assert_eq!(slab.free_count(), 1);
    slab.drop_view(false, slot);
    assert_eq!(slab.tracker.borrows(slot), 0);
    assert_eq!(slab.free_count(), 2);
}

#[test]
fn exclusive_split_requires_both_drops() {
    let (mut slab, _memory) = make_slab(2, 16);
    let slot = slab.acquire_slot().unwrap();
    slab.tracker.split_exclusive(slot);
    assert_eq!(slab.tracker.borrows(slot), -2);
    assert_eq!(slab.free_count(), 1);
    slab.drop_view(true, slot);
    assert_eq!(slab.tracker.borrows(slot), -1);
    assert_eq!(slab.free_count(), 1);
    slab.drop_view(true, slot);
    assert_eq!(slab.tracker.borrows(slot), 0);
    assert_eq!(slab.free_count(), 2);
}

#[test]
fn upgrade_downgrade_sole_holder() {
    let (mut slab, _memory) = make_slab(2, 16);
    let slot = slab.acquire_slot_shared().unwrap();
    slab.tracker.upgrade(slot);
    assert_eq!(slab.tracker.borrows(slot), -1);
    slab.tracker.downgrade(slot);
    assert_eq!(slab.tracker.borrows(slot), 1);
}

#[test]
fn fixed_get_slice_mut_writes_within_slot() {
    let (mut slab, mut memory) = make_slab(2, 8);
    let slot = slab.acquire_slot().unwrap();
    slab.get_slice_mut(&mut memory, slot)[..5].copy_from_slice(b"hello");
    let back = slab.get_slice_mut(&mut memory, slot);
    assert_eq!(&back[..5], b"hello");
    assert!(back.len() >= 8);
}

#[test]
fn fixed_slots_are_isolated() {
    let (mut slab, mut memory) = make_slab(2, 8);
    let a = slab.acquire_slot().unwrap();
    let b = slab.acquire_slot().unwrap();
    slab.get_slice_mut(&mut memory, a)[0] = 1;
    slab.get_slice_mut(&mut memory, b)[0] = 2;
    assert_eq!(slab.get_slice_mut(&mut memory, a)[0], 1);
    assert_eq!(slab.get_slice_mut(&mut memory, b)[0], 2);
}

#[test]
fn slot_ptr_resolves_stable_addresses() {
    let (slab, _memory) = make_slab(4, 16);
    let a = pool::slot_offset(&slab, 0);
    let b = pool::slot_offset(&slab, 1);
    assert_eq!(b - a, 16);
}

#[test]
fn class_for_picks_smallest_fitting_class() {
    let classes = [
        SizeClass { size: 64, count: 1 },
        SizeClass {
            size: 256,
            count: 1,
        },
        SizeClass {
            size: 1024,
            count: 1,
        },
    ];
    assert_eq!(classes::class_for(&classes, 1), Some(0));
    assert_eq!(classes::class_for(&classes, 64), Some(0));
    assert_eq!(classes::class_for(&classes, 65), Some(1));
    assert_eq!(classes::class_for(&classes, 256), Some(1));
    assert_eq!(classes::class_for(&classes, 257), Some(2));
    assert_eq!(classes::class_for(&classes, 1024), Some(2));
    assert_eq!(classes::class_for(&classes, 1025), None);
}

#[test]
fn classes_packed_bid_roundtrip() {
    for class in 0..256u32 {
        for local in [0u32, 1, classes::BID_LOCAL_MASK] {
            let bid = classes::pack_bid(class, local);
            assert_eq!(classes::bid_class(bid), class);
            assert_eq!(classes::bid_local(bid), local);
        }
    }
    assert_eq!(classes::pack_bid(0, 1), 1);
    assert_eq!(classes::pack_bid(1, 0), 1 << 24);
}

#[test]
fn layout_classes_sorts_and_computes_offsets() {
    let classes = [
        SizeClass {
            size: 1024,
            count: 2,
        },
        SizeClass { size: 64, count: 4 },
        SizeClass {
            size: 256,
            count: 3,
        },
    ];
    let layouts = classes::layout_classes(&classes, false);
    let sizes: Vec<u32> = layouts.iter().map(|l| l.size).collect();
    assert_eq!(sizes, vec![64, 256, 1024]);
    assert_eq!(layouts[0].base_offset, 0);
    assert_eq!(layouts[0].total, 64 * 4);
    assert_eq!(layouts[1].base_offset, 64 * 4);
    assert_eq!(layouts[1].total, 64 * 4 + 256 * 3);
    assert_eq!(layouts[2].base_offset, 64 * 4 + 256 * 3);
}

#[test]
fn layout_classes_aligns_each_class_to_its_size() {
    // Sizes that are no multiples of each other: laid out back to back the
    // classes would not be aligned.
    let classes = [
        SizeClass { size: 3, count: 2 },
        SizeClass { size: 5, count: 2 },
        SizeClass { size: 4, count: 1 },
    ];
    let layouts = classes::layout_classes(&classes, false);
    for layout in &layouts {
        assert_eq!(
            layout.base_offset % layout.size,
            0,
            "class {:?} must start on an offset aligned to its size",
            layout
        );
    }
    for pair in layouts.windows(2) {
        assert!(u64::from(pair[1].base_offset) >= pair[0].total);
    }
    assert_eq!(layouts[0].base_offset, 0);
    assert_eq!(layouts[0].total, 6);
    assert_eq!(layouts[1].base_offset, 8);
    assert_eq!(layouts[1].total, 12);
    assert_eq!(layouts[2].base_offset, 15);
    assert_eq!(layouts[2].total, 25);
}

#[test]
fn layout_classes_rejects_empty() {
    assert!(!classes::check_classes(&[], false));
}

#[test]
fn layout_classes_rejects_duplicate_sizes() {
    let classes = [
        SizeClass { size: 64, count: 1 },
        SizeClass { size: 64, count: 2 },
    ];
    assert!(!classes::check_classes(&classes, false));
}

#[test]
fn layout_classes_rejects_non_power_of_two_provided_counts() {
    let classes = [SizeClass { size: 64, count: 3 }];
    assert!(!classes::check_classes(&classes, true));
    assert!(classes::check_classes(&classes, false));
    assert!(classes::layout_classes(&classes, false).len() == 1);
}

#[test]
fn default_classes_are_good_for_both_pools() {
    let classes = classes::default_size_classes();
    assert!(classes::check_classes(&classes, false));
    assert!(classes::check_classes(&classes, true));
    let layouts = classes::layout_classes(&classes, true);
    assert_eq!(layouts.len(), classes.len());
    for layout in &layouts {
        let align = layout.size.min(classes::BUFFER_MAX_ALIGN);
        assert_eq!(layout.base_offset % align, 0);
    }
}

#[test]
fn level_for_picks_smallest_fitting_level() {
    let levels = [
        Level { size: 64, count: 1 },
        Level {
            size: 256,
            count: 1,
        },
        Level {
            size: 1024,
            count: 1,
        },
    ];
    assert_eq!(levels::level_for(&levels, 1), Some(0));
    assert_eq!(levels::level_for(&levels, 64), Some(0));
    assert_eq!(levels::level_for(&levels, 65), Some(1));
    assert_eq!(levels::level_for(&levels, 256), Some(1));
    assert_eq!(levels::level_for(&levels, 257), Some(2));
    assert_eq!(levels::level_for(&levels, 1024), Some(2));
    assert_eq!(levels::level_for(&levels, 1025), None);
}

#[test]
fn levels_packed_bid_roundtrip() {
    for level in 0..256u32 {
        for local in [0u32, 1, levels::BID_LOCAL_MASK] {
            let bid = levels::pack_bid(level, local);
            assert_eq!(levels::bid_level(bid), level);
            assert_eq!(levels::bid_local(bid), local);
        }
    }
    assert_eq!(levels::pack_bid(0, 1), 1);
    assert_eq!(levels::pack_bid(1, 0), 1 << 24);
}

#[test]
fn layout_levels_sorts_and_computes_offsets() {
    let levels = [
        Level {
            size: 1024,
            count: 2,
        },
        Level { size: 64, count: 4 },
        Level {
            size: 256,
            count: 3,
        },
    ];
    let layouts = levels::layout_levels(&levels, false);
    let sizes: Vec<u32> = layouts.iter().map(|l| l.size).collect();
    assert_eq!(sizes, vec![64, 256, 1024]);
    assert_eq!(layouts[0].base_offset, 0);
    assert_eq!(layouts[0].total, 64 * 4);
    assert_eq!(layouts[1].base_offset, 64 * 4);
    assert_eq!(layouts[1].total, 64 * 4 + 256 * 3);
    assert_eq!(layouts[2].base_offset, 64 * 4 + 256 * 3);
}

#[test]
fn layout_levels_rejects_empty() {
    assert!(!levels::check_levels(&[], false));
}

#[test]
fn layout_levels_rejects_duplicate_sizes() {
    let levels = [Level { size: 64, count: 1 }, Level { size: 64, count: 2 }];
    assert!(!levels::check_levels(&levels, false));
}

#[test]
fn layout_levels_rejects_non_power_of_two_read_counts() {
    let levels = [Level { size: 64, count: 3 }];
    assert!(!levels::check_levels(&levels, true));
    assert!(levels::layout_levels(&levels, false).len() == 1);
}

#[test]
fn pbuf_ring_select_and_recycle() {
    let mut memory = vec![0u8; 4 * 16];
    let mut pool = ProvidedBufferPool::new(0, 4, 16, 0);
    // More reads than the ring holds, so that the tail wraps.
    for _ in 0..8 {
        let at = pool.ring_tail() % 4;
        let entry = &pool.ring()[at as usize];
        let bid = entry.bid;
        let start = bid as usize * 16;
        memory[start..start + 11].copy_from_slice(b"hello world");
        let view = pool.select(bid, 11, 1);
        assert_eq!(pool.get_slice(&memory, bid, 11), b"hello world");
        assert_eq!(view.len(), 11);
        let tail = pool.ring_tail();
        pool.drop_view(false, bid as u32);
        assert_eq!(pool.ring_tail(), tail + 1);
    }
}

#[test]
fn pbuf_borrow_tracks_selection_and_release() {
    let mut pool = ProvidedBufferPool::new(0, 4, 16, 0);

    assert_eq!(pool.tracker.borrows(1), 0);
    pool.tracker.take_shared(1);
    assert_eq!(pool.tracker.borrows(1), 1);
    assert_eq!(pool.ring_tail(), 4);
    // A cloned view holds a second borrower; the buffer stays out of the ring
    // until both drop.
    pool.tracker.clone_shared(1);
    assert_eq!(pool.tracker.borrows(1), 2);
    pool.drop_view(false, 1);
    assert_eq!(pool.tracker.borrows(1), 1);
    assert_eq!(pool.ring_tail(), 4);
    pool.drop_view(false, 1);
    assert_eq!(pool.tracker.borrows(1), 0);
    assert_eq!(pool.ring_tail(), 5);
}

#[test]
fn pbuf_upgrade_downgrade_roundtrip() {
    let mut pool = ProvidedBufferPool::new(0, 4, 16, 0);

    pool.tracker.take_shared(1);
    pool.tracker.upgrade(1);
    assert_eq!(pool.tracker.borrows(1), -1);
    // The buffer stays out of the ring through the exclusive phase.
    assert_eq!(pool.ring_tail(), 4);
    pool.tracker.downgrade(1);
    assert_eq!(pool.tracker.borrows(1), 1);
    pool.drop_view(false, 1);
    assert_eq!(pool.tracker.borrows(1), 0);
    assert_eq!(pool.ring_tail(), 5);
}

#[test]
fn pbuf_exclusive_split_and_release() {
    let mut pool = ProvidedBufferPool::new(0, 4, 16, 0);

    pool.tracker.take_shared(1);
    pool.tracker.upgrade(1);
    pool.tracker.split_exclusive(1);
    assert_eq!(pool.tracker.borrows(1), -2);
    // An exclusive release of one split half still leaves a holder.
    pool.drop_view(true, 1);
    assert_eq!(pool.tracker.borrows(1), -1);
    assert_eq!(pool.ring_tail(), 4);
    pool.drop_view(true, 1);
    assert_eq!(pool.tracker.borrows(1), 0);
    assert_eq!(pool.ring_tail(), 5);
}

#[test]
fn pool_finds_the_slot_of_a_class() {
    let classes = vec![
        SizeClass { size: 16, count: 2 },
        SizeClass { size: 64, count: 2 },
    ];
    let slabs = vec![
        FixedSlab::new(0, 16, 2, 0),
        FixedSlab::new(64, 64, 2, 1),
    ];
    let mut pool = Pool::new(classes, slabs);
    assert_eq!(pool.class_for(17), Some(1));
    assert_eq!(pool.class_for(65), None);
    assert_eq!(pool.slot_offset(1, 1), 128);
    assert_eq!(pool.slot_size(0), 16);
    let local = pool.slab_mut(1).acquire_slot().unwrap();
    assert_eq!(pool.slab(1).free_count(), 1);
    pool.drop_view(1, true, local);
    assert_eq!(pool.slab(1).free_count(), 2);
}

#[test]
fn acquire_release_roundtrip() {
    let mut pool = WriteBufferPool::new(0, 16, 4);
    let a = pool.acquire().unwrap();
    let b = pool.acquire().unwrap();
    assert_ne!(a, b);
    pool.release(a);
    assert_eq!(pool.acquire().unwrap(), a);
}

#[test]
fn wbuf_acquire_exhaustion() {
    let mut pool = WriteBufferPool::new(0, 16, 4);
    for _ in 0..4 {
        assert!(pool.acquire().is_some());
    }
    assert_eq!(pool.acquire(), None);
    pool.release(2);
    assert_eq!(pool.acquire(), Some(2));
}

#[test]
fn wbuf_get_slice_mut_writes_within_slot() {
    let mut memory = vec![0u8; 16];
    let mut pool = WriteBufferPool::new(0, 8, 2);
    let slot = pool.acquire().unwrap();
    pool.get_slice_mut(&mut memory, slot)[..5].copy_from_slice(b"hello");
    let back = pool.get_slice_mut(&mut memory, slot);
    assert_eq!(&back[..5], b"hello");
    assert!(back.len() >= 8);
}

#[test]
fn wbuf_slots_are_isolated() {
    let mut memory = vec![0u8; 16];
    let mut pool = WriteBufferPool::new(0, 8, 2);
    let a = pool.acquire().unwrap();
    let b = pool.acquire().unwrap();
    pool.get_slice_mut(&mut memory, a)[0] = 1;
    pool.get_slice_mut(&mut memory, b)[0] = 2;
    assert_eq!(pool.get_slice_mut(&mut memory, a)[0], 1);
    assert_eq!(pool.get_slice_mut(&mut memory, b)[0], 2);
}
