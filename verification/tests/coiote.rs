use conrt::coio::arena::Layout;
use conrt::coiote::buffer::complete_read;
use conrt::coiote::buffer::complete_write;
use conrt::coiote::buffer::IoReadBuffer;
use conrt::coiote::buffer::IoWriteBuffer;
use conrt::coiote::io_state::IoState;
use conrt::coiote::runtime::yield_now;
use conrt::coiote::runtime::Runtime;
use conrt::coiote::slab::Slab;
use conrt::coiote::task::Task;

#[test]
fn slice_ref_prepare_write() {
    let mut task = Task::new(4096);
    let mut held = Vec::new();
    let data: &[u8] = &[10, 20, 30];
    let slot = data
        .prepare_write(&mut task, &mut held)
        .expect("a slot is free");
    assert!(task.io.is_submitted(slot));
}

#[test]
fn complete_write_returns_data_and_cleans_state() {
    let mut task = Task::new(4096);
    let mut held = vec![Some(42u64)];
    let slot = task.io.free_slot().unwrap();
    assert_eq!(slot, 0);
    task.io.set_submitted(slot, true);
    let block = task
        .arena
        .alloc_write(Layout::from_size_align(8, 8).unwrap(), &42u64.to_le_bytes())
        .unwrap();
    task.io.set_alloc(slot, block);
    task.io.set_result(slot, 4);
    task.io.set_ready(slot, true);

    let result: u64 = complete_write(&mut task, &mut held, slot).unwrap();
    assert_eq!(result, 42);
    assert!(!task.io.is_submitted(slot));
    assert!(!task.io.is_ready(slot));
    assert_eq!(task.arena.offset(), 0);
}

#[test]
fn vec_prepare_and_complete_write_pipeline() {
    let mut task = Task::new(4096);
    let mut held = Vec::new();
    let data = vec![1u8, 2, 3, 4];
    let slot = data.prepare_write(&mut task, &mut held).expect("prepared");
    task.io.set_ready(slot, true);
    task.io.set_result(slot, 4);

    let result: Vec<u8> = complete_write(&mut task, &mut held, slot).unwrap();
    assert_eq!(result, vec![1, 2, 3, 4]);
}

#[test]
fn read_buffers_come_back() {
    let mut task = Task::new(4096);
    let mut held = Vec::new();
    let slot = vec![0u8; 16]
        .prepare_read(&mut task, &mut held)
        .expect("prepared");
    let next = vec![7u8; 2]
        .prepare_read(&mut task, &mut held)
        .expect("prepared");
    assert_ne!(slot, next);
    assert_eq!(
        complete_read(&mut task, &mut held, slot).unwrap(),
        vec![0u8; 16]
    );
    assert_eq!(
        complete_read(&mut task, &mut held, next).unwrap(),
        vec![7u8; 2]
    );
}

#[test]
fn completion_leaves_no_trace_of_the_operation() {
    let mut task = Task::new(4096);
    let mut held = Vec::new();
    let first = vec![1u8].prepare_write(&mut task, &mut held).unwrap();
    let used = task.arena.offset();
    assert!(used > 0);
    let second = vec![2u8; 100].prepare_read(&mut task, &mut held).unwrap();
    assert!(task.arena.offset() > used);
    assert_eq!(
        complete_read(&mut task, &mut held, second).unwrap(),
        vec![2u8; 100]
    );
    assert_eq!(task.arena.offset(), used);
    assert_eq!(task.io.free_slot(), Some(second));
    assert!(task.io.is_submitted(first));
    assert_eq!(complete_write(&mut task, &mut held, first).unwrap(), vec![1]);
    assert_eq!(task.arena.offset(), 0);
    assert_eq!(task.io.free_slot(), Some(first));
}

#[test]
fn write_gives_its_slot_back_when_the_arena_is_full() {
    let mut task = Task::new(8);
    let mut held = Vec::new();
    assert!(vec![1u8].prepare_write(&mut task, &mut held).is_none());
    assert_eq!(task.io.free_slot(), Some(0));
    assert!(!task.io.is_submitted(0));
}

#[test]
fn io_state_moves_to_the_heap() {
    let mut io = IoState::new();
    for slot in 0..64 {
        assert_eq!(io.free_slot(), Some(slot));
        io.set_submitted(slot, true);
        io.set_result(slot, slot as i32);
    }
    assert!(!io.is_heap());
    io.set_submitted(70, true);
    assert!(io.is_heap());
    io.set_ready(70, true);
    assert!(io.is_ready(70));
    assert!(io.is_submitted(63));
    assert_eq!(io.result(5), 5);
}

#[test]
fn coiote_slab_reuses_indices() {
    let mut slab = Slab::new();
    assert_eq!(slab.insert('a'), Some(0));
    assert_eq!(slab.insert('b'), Some(1));
    assert_eq!(slab.remove(0), 'a');
    assert!(!slab.contains(0));
    assert!(slab.contains(1));
    assert_eq!(slab.insert('c'), Some(0));
    slab.insert_at(100, 'z');
    assert!(slab.contains(100));
}

#[test]
fn coiote_runs_woken_tasks_once() {
    let mut rt: Runtime<&str> = Runtime::new(4);
    let a = rt.spawn("a").unwrap();
    let b = rt.spawn("b").unwrap();
    let turn = rt.begin_turn();
    assert_eq!(turn, vec![a, b]);
    assert!(rt.begin_poll(a));
    rt.polled(a, false);
    assert!(rt.begin_poll(b));
    rt.polled(b, true);
    // Each is queued once however often it is woken. The task that is done is
    // not there to be polled.
    rt.drain_wakes(&[a, b, a]);
    assert_eq!(rt.begin_turn(), vec![a, b]);
    assert!(rt.begin_poll(a));
    assert!(!rt.begin_poll(b));
}

#[test]
fn coiote_yield_is_done_the_second_time() {
    let mut y = yield_now();
    assert!(!y.poll());
    assert!(y.poll());
}
