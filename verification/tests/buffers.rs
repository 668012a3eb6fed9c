use conrt::coio::buf::Bytes;
use conrt::coio::buf::BytesMut;
use conrt::coio::buf::Ref;
use conrt::coio::buf::RefMut;
use conrt::coio::buf::Slice;
use conrt::coio::buf::SliceMut;
use conrt::coio::buffers::check_pools;
use conrt::coio::buffers::Buffers;
use conrt::coio::buffers::EFBIG;
use conrt::coio::buffers::ENOBUFS;
use conrt::coio::classes;
use conrt::coio::classes::SizeClass;
use conrt::coio::classes::BUFFER_MAX_ALIGN;
use conrt::coio::fixed::FixedSlab;
use conrt::coio::pool;
use conrt::coio::pool::Slab;

fn class(size: u32, count: u32) -> SizeClass {
    SizeClass { size, count }
}

fn test_buffers(generation: u32) -> Buffers {
    let provided = [class(16, 4)];
    let fixed = [
        class(16, 4),
        class(64, 4),
        class(2048, 4),
        class(16384, 2),
    ];
    assert!(check_pools(&provided, &fixed));
    Buffers::build_pools(&provided, &fixed, generation)
}

fn free_count(b: &Buffers, class: usize) -> usize {
    b.fixed_pool().slab(class).free_count()
}

fn fixed_borrows(b: &Buffers, local: u32) -> i32 {
    b.fixed_pool().slab(0).tracker.borrows(local)
}

fn provided_borrows(b: &Buffers, local: u32) -> i32 {
    b.provided_pool().slab(0).tracker.borrows(local)
}

fn ring_tail(b: &Buffers) -> u16 {
    b.provided_pool().slab(0).ring_tail()
}

#[test]
fn shared_slab_fixed_region_follows_provided_region() {
    let b = Buffers::build_pools(&[class(16, 4)], &[class(32, 2)], 1);
    assert_eq!(b.provided_pool().slot_offset(0, 3), 48);
    assert_eq!(b.fixed_pool().slot_offset(0, 0), 64);
    assert_eq!(b.fixed_pool().slot_offset(0, 1), 96);
}

#[test]
fn build_pools_aligns_every_slot_to_its_size() {
    let b = Buffers::build_pools(&[class(16, 4)], &[class(64, 2), class(128, 2)], 1);
    for (i, c) in b.provided_pool().classes().iter().enumerate() {
        for local in 0..c.count {
            let place = b.provided_pool().slot_offset(i, local);
            assert_eq!(place % c.size as usize, 0);
        }
    }
    for (i, c) in b.fixed_pool().classes().iter().enumerate() {
        for local in 0..c.count {
            let place = b.fixed_pool().slot_offset(i, local);
            assert_eq!(place % c.size.min(BUFFER_MAX_ALIGN) as usize, 0);
        }
    }
}

#[test]
fn build_pools_caps_alignment_at_one_page() {
    let b = Buffers::build_pools(&[class(16, 4)], &[class(8192, 2)], 1);
    assert_eq!(b.fixed_pool().slot_offset(0, 0), 4096);
    assert_eq!(b.fixed_pool().slot_offset(0, 1), 12288);
    for local in 0..4 {
        assert_eq!(b.provided_pool().slot_offset(0, local) % 16, 0);
    }
}

#[test]
fn default_pools_can_be_built() {
    let classes = classes::default_size_classes();
    assert!(check_pools(&classes, &classes));
    assert!(!check_pools(&[], &classes));
    assert!(!check_pools(&[class(16, 3)], &classes));
}

#[test]
fn provided_buffer_drop_recycles_slot() {
    let mut b = test_buffers(1);
    let view = b.provided_bytes(0, 1, 5);
    assert_eq!(ring_tail(&b), 4);
    assert_eq!(provided_borrows(&b, 1), 1);
    view.release(&mut b);
    assert_eq!(provided_borrows(&b, 1), 0);
    assert_eq!(ring_tail(&b), 5);
}

#[test]
fn provided_buffer_stale_generation_skips_recycle() {
    let mut b = test_buffers(1);
    let held = b.provided_bytes(0, 1, 5);
    let mut other = test_buffers(2);
    let stale = other.provided_bytes(0, 1, 5);
    assert_eq!(ring_tail(&b), 4);
    assert!(!b.is_live(stale.handle()));
    stale.release(&mut b);
    assert_eq!(ring_tail(&b), 4);
    assert_eq!(provided_borrows(&b, 1), 1);
    held.release(&mut b);
}

#[test]
fn provided_buffer_into_vec_recycles_slot() {
    let mut b = test_buffers(1);
    let view = b.provided_bytes(0, 1, 5);
    assert_eq!(ring_tail(&b), 4);
    let bytes = view.into_vec(&mut b);
    assert_eq!(bytes.len(), 5);
    assert_eq!(ring_tail(&b), 5);
}

#[test]
fn provided_bytes_into_mut_and_into_bytes_roundtrip() {
    let mut b = test_buffers(1);
    let view = b.provided_bytes(0, 1, 5);
    assert_eq!(provided_borrows(&b, 1), 1);

    let mut view = view.into_mut(&mut b);
    assert_eq!(provided_borrows(&b, 1), -1);
    assert_eq!(view.capacity(&b), 16);
    view.write(&mut b, b"hello");
    view.set_len(&b, 5);

    let view = view.into_bytes(&mut b);
    assert_eq!(provided_borrows(&b, 1), 1);
    assert_eq!(view.to_vec(&b), b"hello");

    view.release(&mut b);
    assert_eq!(provided_borrows(&b, 1), 0);
    assert_eq!(ring_tail(&b), 5);
}

#[test]
fn provided_bytesmut_split_at_recycles_after_both_halves_drop() {
    let mut b = test_buffers(1);
    let view = b.provided_bytes(0, 1, 5).into_mut(&mut b);
    let (head, tail) = view.split_at(&mut b, 2).unwrap();
    assert_eq!(provided_borrows(&b, 1), -2);
    assert_eq!((head.len(), tail.len()), (2, 3));
    head.release(&mut b);
    assert_eq!(provided_borrows(&b, 1), -1);
    assert_eq!(ring_tail(&b), 4);
    tail.release(&mut b);
    assert_eq!(provided_borrows(&b, 1), 0);
    assert_eq!(ring_tail(&b), 5);
}

#[test]
fn split_halves_are_parts_of_the_whole() {
    let mut b = test_buffers(1);
    let mut view = b.alloc_bytes(16).unwrap();
    view.write(&mut b, b"headtail");
    view.set_len(&b, 8);
    let (head, tail) = view.split_at(&mut b, 4).unwrap();
    assert_eq!(head.to_vec(&b), b"head");
    assert_eq!(tail.to_vec(&b), b"tail");
    let tail = tail.split_at(&mut b, 9);
    assert!(tail.is_none());
    head.release(&mut b);
    assert_eq!(free_count(&b, 0), 4);
}

#[test]
fn provided_select_mut_borrows_exclusive_and_recycles() {
    let mut pool = conrt::coio::pbuf::ProvidedBufferPool::new(0, 4, 16, 0);
    let view = pool.select_mut(1, 5, 1);
    assert_eq!(pool.tracker.borrows(1), -1);
    assert_eq!(view.len(), 5);
    pool.drop_view(true, 1);
    assert_eq!(pool.tracker.borrows(1), 0);
    assert_eq!(pool.ring_tail(), 5);
}

#[test]
fn buffer_bytes_drop_recycles_slot() {
    let mut b = test_buffers(1);
    let view = b.alloc_bytes(16).unwrap();
    assert_eq!(free_count(&b, 0), 3);
    view.release(&mut b);
    assert_eq!(free_count(&b, 0), 4);
}

#[test]
fn buffer_bytes_stale_generation_skips_recycle() {
    let mut b = test_buffers(1);
    let held = b.alloc_bytes(16).unwrap();
    let stale = test_buffers(2).alloc_bytes(16).unwrap();
    assert_eq!(free_count(&b, 0), 3);
    stale.release(&mut b);
    assert_eq!(free_count(&b, 0), 3);
    held.release(&mut b);
}

#[test]
fn acquire_ref_shared_clone_and_drop() {
    let mut b = test_buffers(1);
    let before = free_count(&b, 0);
    let view: Ref<[u8; 16]> = b.alloc_ref().unwrap();
    assert_eq!(free_count(&b, 0), before - 1);
    let cloned = view.clone_in(&mut b);
    assert_eq!(fixed_borrows(&b, 0), 2);
    cloned.release(&mut b);
    assert_eq!(fixed_borrows(&b, 0), 1);
    view.release(&mut b);
    assert_eq!(free_count(&b, 0), before);
}

#[test]
fn acquire_mut_exclusive_and_drop() {
    let mut b = test_buffers(1);
    let before = free_count(&b, 0);
    let view: RefMut<[u8; 16]> = b.alloc_mut().unwrap();
    assert_eq!(free_count(&b, 0), before - 1);
    assert_eq!(fixed_borrows(&b, 0), -1);
    view.release(&mut b);
    assert_eq!(free_count(&b, 0), before);
}

#[test]
fn acquire_slices_cover_the_whole_slot() {
    let mut slab = FixedSlab::new(0, 16, 4, 0);
    let before = slab.free_count();
    let bytes: Bytes = slab.acquire_bytes(1).unwrap();
    assert_eq!(bytes.len(), 16);
    slab.drop_view(false, 0);

    let bytes_mut: BytesMut = slab.acquire_bytes_mut(1).unwrap();
    assert_eq!(bytes_mut.len(), 16);
    slab.drop_view(true, 0);

    let slice: Slice<u32> = slab.acquire_slice(1).unwrap();
    assert_eq!(slice.len(), 4);
    slab.drop_view(false, 0);

    let slice_mut: SliceMut<u64> = slab.acquire_slice_mut(1).unwrap();
    assert_eq!(slice_mut.len(), 2);
    slab.drop_view(true, 0);

    assert_eq!(slab.free_count(), before);
}

#[test]
fn alloc_bytes_helper_returns_slot_capacity() {
    let mut b = test_buffers(1);
    let before = free_count(&b, 0);
    let view = b.alloc_bytes(5).unwrap();
    assert_eq!(view.capacity(&b), 16);
    assert_eq!(view.len(), 16);
    assert_eq!(free_count(&b, 0), before - 1);
    view.release(&mut b);
    assert_eq!(free_count(&b, 0), before);
}

#[test]
fn alloc_bytes_as_mut_set_len_clear() {
    let mut b = test_buffers(1);
    let mut view = b.alloc_bytes(5).unwrap();
    assert_eq!(view.to_vec(&b).len(), 16);
    view.write(&mut b, b"hello");
    view.set_len(&b, 5);
    assert_eq!(view.len(), 5);
    assert_eq!(view.to_vec(&b), b"hello");

    view.set_len(&b, 16);
    assert_eq!(view.len(), 16);

    view.clear();
    assert_eq!(view.len(), 0);
    assert!(view.is_empty());
}

#[test]
fn alloc_drop_recycles_slot() {
    let mut b = test_buffers(1);
    let before = free_count(&b, 0);
    let view: Ref<[u8; 8]> = b.alloc_ref().unwrap();
    assert_eq!(free_count(&b, 0), before - 1);
    view.release(&mut b);
    assert_eq!(free_count(&b, 0), before);
}

#[test]
fn alloc_cast_preserves_slot() {
    let mut b = test_buffers(1);
    let orig: Ref<[u8; 16]> = b.alloc_ref().unwrap();
    let place = orig.as_ptr(&b);
    let before = free_count(&b, 0);
    let casted: Ref<[u32; 4]> = orig.cast();
    assert_eq!(place, casted.as_ptr(&b));
    assert_eq!(free_count(&b, 0), before);
    casted.release(&mut b);
    assert_eq!(free_count(&b, 0), before + 1);
}

#[test]
fn alloc_stale_generation_leaks_on_drop() {
    let view: Ref<[u8; 8]> = test_buffers(1).alloc_ref().unwrap();
    // The pools that the view is from are gone, and others took their place.
    let mut later = test_buffers(2);
    let before = free_count(&later, 0);
    view.release(&mut later);
    assert_eq!(free_count(&later, 0), before);
}

#[test]
fn ref_clone_adds_and_drops_shared_borrows() {
    let mut b = test_buffers(1);
    let before = free_count(&b, 0);
    let view: Ref<[u8; 8]> = b.alloc_ref().unwrap();
    assert_eq!(fixed_borrows(&b, 0), 1);
    let clone = view.clone_in(&mut b);
    assert_eq!(fixed_borrows(&b, 0), 2);
    assert_eq!(free_count(&b, 0), before - 1);
    view.release(&mut b);
    assert_eq!(fixed_borrows(&b, 0), 1);
    assert_eq!(free_count(&b, 0), before - 1);
    clone.release(&mut b);
    assert_eq!(fixed_borrows(&b, 0), 0);
    assert_eq!(free_count(&b, 0), before);
}

#[test]
fn ref_upgrade_and_downgrade_sole_holder() {
    let mut b = test_buffers(1);
    let before = free_count(&b, 0);
    let view: Ref<[u8; 8]> = b.alloc_ref().unwrap();
    assert_eq!(fixed_borrows(&b, 0), 1);
    let exclusive = view.into_mut(&mut b);
    assert_eq!(fixed_borrows(&b, 0), -1);
    let shared: Ref<[u8; 8]> = exclusive.into_ref(&mut b).cast();
    assert_eq!(fixed_borrows(&b, 0), 1);
    shared.release(&mut b);
    assert_eq!(free_count(&b, 0), before);
}

#[test]
fn subranges_share_the_slot() {
    let mut b = test_buffers(1);
    let mut whole = b.alloc_bytes(16).unwrap();
    whole.write(&mut b, b"0123456789abcdef");
    let whole = whole.into_bytes(&mut b);
    let part = whole.sub(&mut b, 4, 8).unwrap();
    assert_eq!(part.to_vec(&b), b"4567");
    let inner = part.sub(&mut b, 1, 3).unwrap();
    assert_eq!(inner.to_vec(&b), b"56");
    assert!(part.sub(&mut b, 3, 5).is_none());
    assert!(part.sub(&mut b, 3, 2).is_none());
    assert_eq!(fixed_borrows(&b, 0), 3);
    whole.release(&mut b);
    part.release(&mut b);
    assert_eq!(free_count(&b, 0), 3);
    inner.release(&mut b);
    assert_eq!(free_count(&b, 0), 4);
}

#[test]
fn writes_do_not_reach_other_slots() {
    let mut b = test_buffers(1);
    let mut first = b.alloc_bytes(16).unwrap();
    let mut second = b.alloc_bytes(16).unwrap();
    first.write(&mut b, &[1; 16]);
    second.write(&mut b, &[2; 16]);
    assert_eq!(first.to_vec(&b), [1; 16]);
    assert_eq!(second.to_vec(&b), [2; 16]);
    assert_eq!(pool::slot_offset(b.fixed_pool().slab(0), 1), second.as_ptr(&b));
}

#[test]
fn oversized_and_exhausted_requests_get_nothing() {
    let mut b = test_buffers(1);
    assert_eq!(b.alloc_bytes(16385).err(), Some(EFBIG));
    let first = b.alloc_bytes(16384).unwrap();
    let _second = b.alloc_bytes(16384).unwrap();
    assert_eq!(b.alloc_bytes(16384).err(), Some(ENOBUFS));
    first.release(&mut b);
    assert!(b.alloc_bytes(3000).is_ok());
}

#[test]
fn block_on_alloc_bytes_oversized_errors() {
    let mut b = Buffers::build_pools(
        &[SizeClass { size: 16, count: 4 }],
        &[SizeClass { size: 16, count: 4 }],
        1,
    );
    assert_eq!(b.alloc_bytes(17).err().unwrap(), libc::EFBIG);
    assert_eq!(ENOBUFS, libc::ENOBUFS);
}

#[test]
fn split_halves_cannot_grow_into_each_other() {
    let mut b = test_buffers(1);
    let view = b.alloc_bytes(16).unwrap();
    let (mut head, mut tail) = view.split_at(&mut b, 6).unwrap();
    assert_eq!(head.capacity(&b), 6);
    assert_eq!(tail.capacity(&b), 10);
    tail.write(&mut b, b"0123456789");
    head.clear();
    head.set_len(&b, 6);
    head.write(&mut b, b"abcdef");
    assert_eq!(tail.to_vec(&b), b"0123456789");
    // The tail can be split again, and has the rest of the slot.
    tail.set_len(&b, 4);
    let (left, mut right) = tail.split_at(&mut b, 1).unwrap();
    assert_eq!(left.capacity(&b), 1);
    assert_eq!(right.capacity(&b), 9);
    right.set_len(&b, 9);
    left.release(&mut b);
    right.release(&mut b);
    // A view that is the only one again covers what it covered.
    let mut again = head.into_bytes(&mut b).into_mut(&mut b);
    assert_eq!(again.len(), 6);
    assert_eq!(again.capacity(&b), 16);
    again.set_len(&b, 16);
    again.release(&mut b);
}

#[test]
fn covered_bytes_can_be_changed_in_place() {
    let mut b = test_buffers(1);
    let mut view = b.alloc_bytes(16).unwrap();
    view.set_len(&b, 5);
    view.as_mut(&mut b).copy_from_slice(b"hello");
    assert_eq!(view.to_vec(&b), b"hello");
    view.as_mut(&mut b)[0] = b'j';
    assert_eq!(view.to_vec(&b), b"jello");
    view.release(&mut b);
}
