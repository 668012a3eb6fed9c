use std::cell::Cell;
use std::future::Ready;
use std::rc::Rc;

use conrt::coio::op::IoVec;
use conrt::coio::slab::Slab;
use conrt::coio::task::Task;
use conrt::coio::task::TaskContextError;
use conrt::coio::task::TaskIds;
use conrt::coio::task::TaskSlab;

fn ready_task(ids: &mut TaskIds) -> Task {
    let mut task = Task::new(ids);
    task.ready = true;
    task
}

#[test]
fn slab_new_large_capacity() {
    let slab = TaskSlab::<Ready<()>, ()>::new(128);
    assert_eq!(slab.capacity(), 128);
    assert_eq!(slab.free_words().len(), 2);
    assert_eq!(slab.free_words()[0], u64::MAX);
    assert_eq!(slab.free_words()[1], u64::MAX);
}

#[test]
fn reserve_sequential() {
    let mut slab = TaskSlab::<Ready<()>, ()>::new(10);
    assert_eq!(slab.reserve(), Some(0));
    assert_eq!(slab.reserve(), Some(1));
    assert_eq!(slab.reserve(), Some(2));
}

#[test]
fn reserve_exhaustion() {
    let mut slab = TaskSlab::<Ready<()>, ()>::new(3);
    assert_eq!(slab.reserve(), Some(0));
    assert_eq!(slab.reserve(), Some(1));
    assert_eq!(slab.reserve(), Some(2));
    assert_eq!(slab.reserve(), None);
}

#[test]
fn init_and_retrieve_task() {
    let mut ids = TaskIds::new();
    let mut slab = TaskSlab::<Ready<()>, ()>::new(10);
    let task = ready_task(&mut ids);
    let idx = slab.insert(task, |_| std::future::ready(())).unwrap();
    assert!(slab.task(idx).ready);
}

#[test]
fn is_occupied_initially_false() {
    let slab = TaskSlab::<Ready<()>, ()>::new(10);
    assert!(!slab.is_occupied(0));
}

#[test]
fn is_occupied_after_init() {
    let mut ids = TaskIds::new();
    let mut slab = TaskSlab::<Ready<()>, ()>::new(10);
    let task = ready_task(&mut ids);
    let idx = slab.insert(task, |_| std::future::ready(())).unwrap();
    assert!(slab.is_occupied(idx));
}

#[test]
fn remove_returns_values_and_frees_slot() {
    let mut ids = TaskIds::new();
    let mut slab = TaskSlab::<Ready<()>, ()>::new(10);
    let task = ready_task(&mut ids);
    let idx = slab.insert(task, |_| std::future::ready(())).unwrap();

    let t = slab.remove(idx);
    assert!(t.ready);

    assert!(!slab.is_occupied(idx));
    let next_idx = slab
        .insert(Task::new(&mut ids), |_| std::future::ready(()))
        .unwrap();
    assert_eq!(next_idx, idx);
}

#[test]
fn output_slab_roundtrip() {
    let mut ids = TaskIds::new();
    let mut slab = TaskSlab::<Ready<u32>, u32>::new(10);
    let task = ready_task(&mut ids);
    let idx = slab.insert(task, |_| std::future::ready(42u32)).unwrap();

    slab.init_output(idx, 42);
    assert_eq!(slab.take_output(idx), 42);

    let _ = slab.remove(idx);
    let next = slab
        .insert(Task::new(&mut ids), |_| std::future::ready(42u32))
        .unwrap();
    assert_eq!(next, idx);
}

struct DropCounter(Rc<Cell<usize>>);

impl Drop for DropCounter {
    fn drop(&mut self) {
        self.0.set(self.0.get() + 1);
    }
}

#[test]
fn remove_drops_pending_output() {
    let output_drops = Rc::new(Cell::new(0));
    let future_drops = Rc::new(Cell::new(0));
    let mut ids = TaskIds::new();
    let mut slab = TaskSlab::<Ready<DropCounter>, DropCounter>::new(10);
    let task = ready_task(&mut ids);
    let idx = slab
        .insert(task, |_| {
            std::future::ready(DropCounter(future_drops.clone()))
        })
        .unwrap();
    slab.init_output(idx, DropCounter(output_drops.clone()));

    let _ = slab.remove(idx);
    assert_eq!(output_drops.get(), 1);
    assert_eq!(future_drops.get(), 1);
}

#[test]
fn remove_keeps_consumed_output() {
    let output_drops = Rc::new(Cell::new(0));
    let future_drops = Rc::new(Cell::new(0));
    let mut ids = TaskIds::new();
    let mut slab = TaskSlab::<Ready<DropCounter>, DropCounter>::new(10);
    let task = ready_task(&mut ids);
    let idx = slab
        .insert(task, |_| {
            std::future::ready(DropCounter(future_drops.clone()))
        })
        .unwrap();
    slab.init_output(idx, DropCounter(output_drops.clone()));

    // The joiner took the output: removal drops nothing of it.
    let taken = slab.take_output(idx);
    let _ = slab.remove(idx);
    assert_eq!(output_drops.get(), 0);
    assert_eq!(future_drops.get(), 1);
    drop(taken);
}

#[test]
fn drop_outputs_raw_drops_unconsumed_outputs() {
    let output_drops = Rc::new(Cell::new(0));
    let future_drops = Rc::new(Cell::new(0));
    let mut ids = TaskIds::new();
    let mut slab = TaskSlab::<Ready<DropCounter>, DropCounter>::new(10);
    let task = ready_task(&mut ids);
    let idx = slab
        .insert(task, |_| {
            std::future::ready(DropCounter(future_drops.clone()))
        })
        .unwrap();
    slab.init_output(idx, DropCounter(output_drops.clone()));

    slab.drop_outputs_raw();
    assert_eq!(output_drops.get(), 1);
    assert_eq!(future_drops.get(), 0);
}

#[test]
fn contexts_name_one_task() {
    let mut ids = TaskIds::new();
    let mut slab = TaskSlab::<(), ()>::new(4);
    let idx = slab.insert(Task::new(&mut ids), |_| ()).unwrap();
    let ctx = slab.context_for(idx);
    assert!(ctx.validate(true, &slab).is_ok());
    let err = ctx.validate(false, &slab).unwrap_err();
    assert_eq!(err, TaskContextError::InactiveRuntime);
    slab.remove(idx);
    let gone = ctx.validate(true, &slab).unwrap_err();
    assert_eq!(gone, TaskContextError::TaskRemoved);
    // The slot is used again, by another task.
    assert_eq!(slab.insert(Task::new(&mut ids), |_| ()), Some(idx));
    let reused = ctx.validate(true, &slab).unwrap_err();
    assert_eq!(reused, TaskContextError::TaskReused);
    assert_ne!(err.message(), gone.message());
}

#[test]
fn io_vec_new_is_empty_inline() {
    let v = IoVec::new();
    assert!(v.is_empty());
    assert!(!v.is_heap());
}

#[test]
fn io_vec_stays_inline_up_to_three() {
    let mut v = IoVec::new();
    v.push(7);
    v.push(8);
    v.push(9);
    assert!(!v.is_heap());
    assert_eq!(v.len(), 3);
    assert_eq!(v.iter().collect(), vec![7, 8, 9]);
}

#[test]
fn io_vec_grows_to_heap_on_fourth_push() {
    let mut v = IoVec::new();
    for i in 0..4 {
        v.push(i);
    }
    assert!(v.is_heap());
    assert_eq!(v.len(), 4);
    assert_eq!(v.iter().collect(), vec![0, 1, 2, 3]);
}

#[test]
fn io_vec_grows_past_initial_heap_capacity() {
    let mut v = IoVec::new();
    for i in 0..20 {
        v.push(i);
    }
    assert!(v.is_heap());
    assert_eq!(v.len(), 20);
    assert_eq!(v.iter().collect(), (0..20).collect::<Vec<_>>());
}

#[test]
fn io_vec_remove_value_missing() {
    let mut v = IoVec::new();
    v.push(1);
    v.push(2);
    assert!(!v.remove_value(3));
    assert_eq!(v.len(), 2);
}

#[test]
fn io_vec_remove_value_inline() {
    let mut v = IoVec::new();
    v.push(1);
    v.push(2);
    v.push(3);
    assert!(v.remove_value(2));
    assert_eq!(v.iter().collect(), vec![1, 3]);
    assert!(!v.is_heap());
}

#[test]
fn io_vec_remove_value_heap() {
    let mut v = IoVec::new();
    for i in 0..10 {
        v.push(i);
    }
    assert!(v.remove_value(3));
    assert_eq!(v.len(), 9);
    let mut rest: Vec<u32> = v.iter().collect();
    rest.sort();
    assert_eq!(rest, (0..10).filter(|&i| i != 3).collect::<Vec<_>>());
}

#[test]
fn io_vec_heap_allocation_is_freed_on_drop() {
    let mut v = IoVec::new();
    for i in 0..100 {
        v.push(i);
    }
    assert!(v.is_heap());
    drop(v);
}

#[test]
fn insert_sequential() {
    let mut slab = Slab::new();
    assert_eq!(slab.insert(10), Some(0));
    assert_eq!(slab.insert(20), Some(1));
    assert_eq!(slab.insert(30), Some(2));
}

#[test]
fn remove_reuses_slot() {
    let mut slab = Slab::new();
    slab.insert(100);
    slab.insert(200);
    assert_eq!(slab.remove(0), 100);
    assert!(!slab.contains(0));
    assert_eq!(slab.insert(300), Some(0));
    assert!(slab.contains(0));
}

#[test]
fn insert_at_and_contains() {
    let mut slab = Slab::new();
    slab.insert_at(42, 99);
    assert!(slab.contains(42));
    assert_eq!(slab.slot_count(), 43);
}

#[test]
fn insert_at_preserves_capacity() {
    let mut slab = Slab::new();
    slab.insert(10);
    slab.insert(20);
    slab.insert(30);
    slab.insert_at(99, 999);
    // A free slot below 64 is still found.
    slab.remove(0);
    assert_eq!(slab.insert(555), Some(0));
}

#[test]
fn inline_free_overflow() {
    let mut slab = Slab::new();
    for i in 0..64 {
        assert_eq!(slab.insert(i as u64), Some(i));
    }
    assert_eq!(slab.inline_free(), 0);
    assert_eq!(slab.insert(64), Some(64));
    slab.remove(64);
    assert_eq!(slab.free_list().len(), 1);
    assert_eq!(slab.insert(65), Some(64));
}

#[test]
fn remove_updates_free_list_inline() {
    let mut slab = Slab::new();
    for i in 0..10 {
        slab.insert(i);
    }
    slab.remove(0);
    slab.remove(5);
    assert!(!slab.contains(0));
    assert!(!slab.contains(5));
    // The smallest free slot is used first.
    assert_eq!(slab.insert(100), Some(0));
    assert_eq!(slab.insert(200), Some(5));
}

#[test]
fn remove_frees_slot_and_allows_reuse() {
    let mut slab = Slab::<u64>::new();
    slab.insert(10);
    slab.insert(20);
    slab.remove(1);
    assert!(!slab.contains(1));
    assert_eq!(slab.insert(30), Some(1));
}

#[test]
fn insert_at_keeps_the_order_of_other_free_slots() {
    let mut slab = Slab::new();
    for i in 0..70u32 {
        slab.insert(i);
    }
    for i in [66, 64, 69, 67] {
        slab.remove(i);
    }
    assert_eq!(slab.free_list().as_slice(), [66, 64, 69, 67]);
    slab.insert_at(64, 1);
    assert_eq!(slab.free_list().as_slice(), [66, 69, 67]);
    // The one that was freed last is used first.
    assert_eq!(slab.insert(2), Some(67));
    assert_eq!(slab.free_list().as_slice(), [66, 69]);
}
