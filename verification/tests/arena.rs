use conrt::coio::arena::Arena;
use conrt::coio::arena::Layout;
use conrt::coio::arena::FOOTER_SIZE;

fn layout(size: usize, align: u32) -> Layout {
    Layout::from_size_align(size, align).unwrap()
}

fn number(arena: &mut Arena, value: u64) -> conrt::coio::arena::ArenaAlloc {
    arena.alloc_write(layout(8, 8), &value.to_le_bytes()).unwrap()
}

#[test]
fn alloc_success() {
    let mut arena = Arena::new(4096);
    let block = arena.allocate(layout(64, 1)).expect("should succeed");
    assert_eq!(block.offset, 0);
    assert_eq!(block.size, 64);
}

#[test]
fn alloc_writes_footer_and_advances_offset() {
    let mut arena = Arena::new(4096);
    let block = arena.allocate(layout(32, 1)).unwrap();

    let expected_total = 32 + FOOTER_SIZE;
    assert_eq!(arena.offset(), expected_total);
    assert_eq!(block.offset, 0);

    let (size, dead) = arena.footer(&block);
    assert_eq!(size, 32);
    assert!(!dead);
}

#[test]
fn alloc_exhaustion() {
    let mut arena = Arena::new(100);
    let block = arena.allocate(layout(96, 1));
    assert!(block.is_some());
    // 96 bytes and a footer fill the arena.
    let next = arena.allocate(layout(4, 1));
    assert!(next.is_none());
}

#[test]
fn alloc_type_and_read_roundtrip() {
    let mut arena = Arena::new(4096);
    let block = number(&mut arena, 42u64);
    let value = u64::from_le_bytes(arena.read(&block).try_into().unwrap());
    assert_eq!(value, 42u64);
    let typed = arena.alloc_type::<u64>().unwrap();
    assert_eq!(typed.size, 8);
    assert_eq!(typed.offset % 8, 0);
}

#[test]
fn alloc_write_vec_roundtrip() {
    let mut arena = Arena::new(4096);
    let v = vec![1u8, 2, 3, 4, 5];
    let block = arena
        .alloc_write(layout(5, 1), &v)
        .expect("should succeed");
    let v2: Vec<u8> = arena.read(&block);
    assert_eq!(v2, vec![1, 2, 3, 4, 5]);
}

#[test]
fn ptr_for_is_within_bounds() {
    let mut arena = Arena::new(4096);
    let block = arena.alloc_write(layout(16, 1), &[0u8; 16]).unwrap();
    assert!(block.offset < arena.capacity());
    assert!(block.offset + block.size <= arena.capacity());
}

#[test]
fn get_alloc_slice_matches_size() {
    let mut arena = Arena::new(4096);
    let data = [1u8, 2, 3, 4, 5];
    let block = arena.alloc_write(layout(5, 1), &data).unwrap();
    let bytes = arena.read(&block);
    assert_eq!(bytes.len(), 5);
    assert_eq!(bytes, data);
}

#[test]
fn dealloc_reclaims_top() {
    let mut arena = Arena::new(4096);
    let _a = number(&mut arena, 100);
    let b = number(&mut arena, 200);

    let offset_before = arena.offset();
    arena.dealloc(b);
    assert!(arena.offset() < offset_before);
}

#[test]
fn dealloc_middle_does_not_reclaim() {
    let mut arena = Arena::new(4096);
    let _a = number(&mut arena, 10);
    let b = number(&mut arena, 20);
    let c = number(&mut arena, 30);

    let offset_before = arena.offset();
    arena.dealloc(b);
    // The block is not the top one, so nothing is given back yet.
    assert_eq!(arena.offset(), offset_before);

    arena.dealloc(c);
    assert!(arena.offset() < offset_before);
}

#[test]
fn dealloc_all_reclaims_everything() {
    let mut arena = Arena::new(4096);
    let a = number(&mut arena, 10);
    let b = number(&mut arena, 20);
    arena.dealloc(b);
    arena.dealloc(a);
    assert_eq!(arena.offset(), 0);
}

#[test]
fn alloc_alignment() {
    let mut arena = Arena::new(4096);
    let a1 = arena.allocate(layout(1, 1)).unwrap();
    assert_eq!(a1.offset, 0);
    let a2 = arena.allocate(layout(1, 2)).unwrap();
    assert_eq!(a2.offset % 2, 0);
    let a3 = arena.allocate(layout(1, 8)).unwrap();
    assert_eq!(a3.offset % 8, 0);
    let a4 = arena.allocate(layout(1, 16)).unwrap();
    assert_eq!(a4.offset % 16, 0);
}

#[test]
fn alloc_alignment_advances_offset_correctly() {
    let mut arena = Arena::new(4096);
    let _a1 = arena.allocate(layout(1, 1)).unwrap();
    let a2 = arena.allocate(layout(4, 8)).unwrap();
    assert_eq!(a2.offset % 8, 0);
}

#[test]
fn layouts_need_a_power_of_two() {
    assert!(Layout::from_size_align(8, 3).is_none());
    assert!(Layout::from_size_align(8, 0).is_none());
    assert!(Layout::from_size_align(8, 4).is_some());
}
