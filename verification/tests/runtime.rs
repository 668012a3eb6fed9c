use std::cell::RefCell;
use std::future::Future;
use std::pin::Pin;
use std::rc::Rc;
use std::task::Context;
use std::task::Waker;

use conrt::coio::buffers::EFBIG;
use conrt::coio::classes::SizeClass;
use conrt::coio::generation::Generation;
use conrt::coio::notify::Notify;
use conrt::coio::op::IoUserData;
use conrt::coio::op::IoVec;
use conrt::coio::runtime::block_on::MainLoop;
use conrt::coio::runtime::block_on::NextTask;
use conrt::coio::runtime::block_on::TurnEnd;
use conrt::coio::runtime::block_on::EBUSY;
use conrt::coio::runtime::join::JoinFuture;
use conrt::coio::runtime::join::JoinHandle;
use conrt::coio::runtime::join::Poll;
use conrt::coio::runtime::join::RuntimeContext;
use conrt::coio::runtime::ops;
use conrt::coio::runtime::Completion;
use conrt::coio::runtime::Runtime;
use conrt::coio::runtime::RuntimeParams;
use conrt::coio::task::Task;
use conrt::coio::task::TaskContext;
use conrt::coio::task::TaskIds;

fn params(tasks_capacity: u32) -> RuntimeParams {
    RuntimeParams {
        tasks_capacity,
        ring_entries: 8,
        provided_size_classes: vec![SizeClass { size: 16, count: 4 }],
        size_classes: vec![SizeClass { size: 16, count: 4 }],
    }
}

fn test_runtime() -> Runtime<(), ()> {
    Runtime::new(&params(64), 1)
}

fn add_task(rt: &mut Runtime<(), ()>, ids: &mut TaskIds) -> TaskContext {
    let index = rt.tasks_mut().insert(Task::new(ids), |_| ()).unwrap();
    rt.tasks().context_for(index)
}

fn done(tag: u64, result: i32) -> Completion {
    Completion {
        user_data: tag,
        result,
        flags: 0,
    }
}

#[test]
fn io_slot_alloc_marks_submitted() {
    let mut rt = test_runtime();
    let slot = rt.alloc_io_slot();
    assert_eq!(slot, 0);
    assert_eq!(rt.io_slab()[slot as usize].submitted, 1);
    assert!(rt.has_io_in_flight());
}

#[test]
fn io_slot_free_clears_and_reuses() {
    let mut rt = test_runtime();
    let a = rt.alloc_io_slot();
    let b = rt.alloc_io_slot();
    assert_eq!(a, 0);
    assert_eq!(b, 1);
    rt.free_io_slot(a);
    assert_eq!(rt.io_slab()[a as usize].submitted, 0);
    // The freed slot is reused before the slab grows.
    let c = rt.alloc_io_slot();
    assert_eq!(c, 0);
    assert_eq!(rt.io_slab().len(), 2);
}

#[test]
fn io_slab_reaps_completed_unreaped_slot() {
    let mut ids = TaskIds::new();
    let mut rt = test_runtime();
    let ctx = add_task(&mut rt, &mut ids);
    let mut io = IoVec::new();
    let slot = rt.alloc_io_slot();
    io.push(slot);
    // The operation completed, and nobody asked for its result.
    let tag = u64::from(IoUserData {
        index: ctx.task_index,
        io_slot: slot,
    });
    rt.drain_cqes(&[done(tag, 0)], &mut Vec::new());
    rt.reap_io_slots(&mut io);
    assert_eq!(rt.io_slab()[slot as usize].submitted, 0);
    assert_eq!(rt.free_io_slots(), &vec![slot]);
    assert!(!rt.has_io_in_flight());
}

#[test]
fn io_slab_leaves_in_flight_slot_orphaned() {
    let mut rt = test_runtime();
    let mut io = IoVec::new();
    let slot = rt.alloc_io_slot();
    io.push(slot);
    // Still in flight: the slot is left for the late completion.
    rt.reap_io_slots(&mut io);
    assert_eq!(rt.io_slab()[slot as usize].submitted, 1);
    assert!(rt.free_io_slots().is_empty());
    assert!(rt.has_io_in_flight());
}

#[test]
fn io_user_data_u64_roundtrip() {
    for raw in [0u64, 1, u64::MAX, 0xDEAD_BEEF, 0x1234_5678_9ABC_DEF0] {
        let ud: IoUserData = raw.into();
        let back: u64 = ud.into();
        assert_eq!(raw, back);
    }
}

#[test]
fn io_user_data_struct_roundtrip() {
    let ud = IoUserData {
        index: 42,
        io_slot: 7,
    };
    let raw: u64 = ud.into();
    let back: IoUserData = raw.into();
    assert_eq!(back.index, 42);
    assert_eq!(back.io_slot, 7);
}

#[test]
fn has_io_in_flight_empty_slab() {
    let rt = test_runtime();
    assert!(!rt.has_io_in_flight());
}

#[test]
fn has_io_in_flight_true_while_submitted_not_ready() {
    let mut rt = test_runtime();
    rt.alloc_io_slot();
    assert!(rt.has_io_in_flight());
}

#[test]
fn has_io_in_flight_false_when_ready() {
    let mut ids = TaskIds::new();
    let mut rt = test_runtime();
    let ctx = add_task(&mut rt, &mut ids);
    let (_slot, tag) = ops::submit(&mut rt, ctx);
    rt.drain_cqes(&[done(tag, 0)], &mut Vec::new());
    assert!(!rt.has_io_in_flight());
}

#[test]
fn has_io_in_flight_false_after_free() {
    let mut rt = test_runtime();
    let slot = rt.alloc_io_slot();
    rt.free_io_slot(slot);
    assert!(!rt.has_io_in_flight());
}

#[test]
fn await_cqe_immediate_ready() {
    let mut ids = TaskIds::new();
    let mut rt = test_runtime();
    let ctx = add_task(&mut rt, &mut ids);
    let (slot, tag) = ops::submit(&mut rt, ctx);
    rt.drain_cqes(&[done(tag, 42)], &mut Vec::new());
    assert!(matches!(
        ops::await_cqe(&mut rt, ctx, slot),
        Poll::Ready(42)
    ));
}

#[test]
fn await_cqe_delayed_ready() {
    let mut ids = TaskIds::new();
    let mut rt = test_runtime();
    let ctx = add_task(&mut rt, &mut ids);
    let (slot, tag) = ops::submit(&mut rt, ctx);
    assert!(matches!(ops::await_cqe(&mut rt, ctx, slot), Poll::Pending));
    rt.drain_cqes(&[done(tag, 99)], &mut Vec::new());
    assert!(matches!(
        ops::await_cqe(&mut rt, ctx, slot),
        Poll::Ready(99)
    ));
}

#[test]
fn yield_first_poll_returns_pending() {
    let mut ids = TaskIds::new();
    let mut rt = test_runtime();
    let ctx = add_task(&mut rt, &mut ids);
    let mut y = ops::yield_now(ctx);
    assert!(matches!(y.poll(&mut rt), Poll::Pending));
    assert!(y.polled());
}

#[test]
fn yield_second_poll_returns_ready() {
    let mut ids = TaskIds::new();
    let mut rt = test_runtime();
    let ctx = add_task(&mut rt, &mut ids);
    let mut y = ops::yield_now(ctx);
    assert!(matches!(y.poll(&mut rt), Poll::Pending));
    assert!(matches!(y.poll(&mut rt), Poll::Ready(())));
}

#[test]
fn yield_calls_wake_on_first_poll() {
    let mut ids = TaskIds::new();
    let mut rt = test_runtime();
    let ctx = add_task(&mut rt, &mut ids);
    let mut y = ops::yield_now(ctx);
    let _ = y.poll(&mut rt);
    assert_eq!(rt.wakeups(), &vec![ctx.task_index]);
}

#[test]
fn task_context_with_task_reads_correct_task() {
    let mut ids = TaskIds::new();
    let mut rt = test_runtime();
    let ctx = add_task(&mut rt, &mut ids);
    assert!(!ctx.with_task(&mut rt).ready);
}

#[test]
fn task_context_with_task_modifies() {
    let mut ids = TaskIds::new();
    let mut rt = test_runtime();
    let ctx = add_task(&mut rt, &mut ids);
    ctx.with_task(&mut rt).ready = true;
    assert!(rt.tasks().task(ctx.task_index).ready);
}

#[test]
fn task_context_with_runtime_reads_buffer_pool() {
    let rt = test_runtime();
    assert_eq!(rt.buffers().provided_pool().slab(0).bgid(), 0);
}

#[test]
fn task_context_wake_pushes_index() {
    let mut ids = TaskIds::new();
    let mut rt = test_runtime();
    let ctx = add_task(&mut rt, &mut ids);
    ctx.wake(&mut rt);
    ctx.wake(&mut rt);
    assert_eq!(rt.wakeups(), &vec![ctx.task_index, ctx.task_index]);
}

#[test]
fn task_context_of_live_task_usable_alongside_other_tasks() {
    let mut ids = TaskIds::new();
    let mut rt = test_runtime();
    let ctx_a = add_task(&mut rt, &mut ids);
    let ctx_b = add_task(&mut rt, &mut ids);
    ctx_b.with_task(&mut rt).ready = true;
    ctx_a.with_task(&mut rt).ready = true;
    assert!(rt.tasks().task(ctx_a.task_index).ready);
}

#[test]
fn refused_submission_gives_its_slot_back() {
    let mut ids = TaskIds::new();
    let mut rt = test_runtime();
    let ctx = add_task(&mut rt, &mut ids);
    let (slot, _tag) = ops::submit(&mut rt, ctx);
    assert_eq!(
        ops::submitted(&mut rt, ctx, slot, false),
        Err(ops::EAGAIN)
    );
    assert!(!rt.has_io_in_flight());
    assert!(rt.tasks().task(ctx.task_index).holds_nothing());
    let (again, _tag) = ops::submit(&mut rt, ctx);
    assert_eq!(again, slot);
    assert_eq!(ops::submitted(&mut rt, ctx, again, true), Ok(()));
    assert_eq!(ops::EAGAIN, libc::EAGAIN);
    assert_eq!(EFBIG, libc::EFBIG);
}

#[test]
fn completed_reads_name_their_buffer() {
    let mut ids = TaskIds::new();
    let mut rt = test_runtime();
    let ctx = add_task(&mut rt, &mut ids);
    let class = ops::read_class(&rt, 5).unwrap();
    assert_eq!(class, 0);
    assert_eq!(ops::read_class(&rt, 17), Err(EFBIG));
    let (slot, tag) = ops::submit(&mut rt, ctx);
    // The kernel reports buffer 2 in the upper half of the flags.
    let mut ready = Vec::new();
    rt.drain_cqes(
        &[Completion {
            user_data: tag,
            result: 5,
            flags: (2 << 16) | 1,
        }],
        &mut ready,
    );
    assert_eq!(ready, vec![ctx.task_index]);
    assert_eq!(rt.io_slab()[slot as usize].bid, 2);
    let view = ops::read_done(&mut rt, ctx, class, slot, 5);
    assert_eq!(view.len(), 5);
    assert_eq!(rt.buffers().provided_pool().slab(0).tracker.borrows(2), 1);
    assert!(rt.tasks().task(ctx.task_index).holds_nothing());
    view.release(rt.buffers_mut());
}

#[test]
fn completions_without_a_buffer_keep_none() {
    let mut ids = TaskIds::new();
    let mut rt = test_runtime();
    let ctx = add_task(&mut rt, &mut ids);
    let (slot, tag) = ops::submit(&mut rt, ctx);
    rt.drain_cqes(
        &[Completion {
            user_data: tag,
            result: 5,
            flags: 2 << 16,
        }],
        &mut Vec::new(),
    );
    assert_eq!(rt.io_slab()[slot as usize].bid, 0);
    assert_eq!(
        ops::completed(&mut rt, ctx, slot, -libc::EBADF),
        Err(libc::EBADF)
    );
}

#[test]
fn notified_value_is_kept_for_the_waiter() {
    let mut ids = TaskIds::new();
    let mut rt = test_runtime();
    let ctx = add_task(&mut rt, &mut ids);
    let mut notify = Notify::new();
    let mut wait = notify.wait(ctx);
    assert!(!notify.has_waiter());
    assert!(matches!(wait.poll(&mut notify), Poll::Pending));
    assert!(notify.has_waiter());
    notify.notify(&mut rt, 7);
    assert_eq!(rt.wakeups(), &vec![ctx.task_index]);
    assert!(matches!(wait.poll(&mut notify), Poll::Ready(7)));
    // A value that came first is there for whoever waits next.
    notify.notify(&mut rt, 8);
    let mut late = notify.wait(ctx);
    assert!(matches!(late.poll(&mut notify), Poll::Ready(8)));
}

#[test]
fn generations_tell_runs_apart() {
    let mut generation = Generation::new();
    assert!(!generation.is_running());
    let first = generation.enter_active_gen();
    assert!(generation.active_gen_matches(first));
    generation.exit_active_gen();
    assert!(!generation.active_gen_matches(first));
    let second = generation.enter_active_gen();
    assert_ne!(first, second);
}

type Fut<R> = Rc<RefCell<Pin<Box<dyn Future<Output = R>>>>>;
type Shared<R> = Rc<RefCell<Runtime<Fut<R>, R>>>;

/// What a task has at hand: its own place, and the runtime.
struct Env<S, R> {
    me: TaskContext,
    rt: Shared<R>,
    ids: Rc<RefCell<TaskIds>>,
    make: fn(Env<S, R>, S) -> Pin<Box<dyn Future<Output = R>>>,
}

impl<S: 'static, R: 'static> Env<S, R> {
    fn spawn(&self, data: S) -> Option<JoinHandle<R>> {
        let task = Task::new(&mut self.ids.borrow_mut());
        let (rt, ids, make) = (self.rt.clone(), self.ids.clone(), self.make);
        self.rt.borrow_mut().spawn(task, move |me| {
            let env = Env { me, rt, ids, make };
            Rc::new(RefCell::new(make(env, data)))
        })
    }

    fn join(&self, handle: JoinHandle<R>) -> Join<R> {
        Join {
            inner: handle.join(),
            rt: self.rt.clone(),
            me: self.me.task_index,
        }
    }
}

struct Join<R> {
    inner: JoinFuture<R>,
    rt: Shared<R>,
    me: u32,
}

impl<R: Unpin> Future for Join<R> {
    type Output = Option<R>;

    fn poll(
        mut self: Pin<&mut Self>,
        _cx: &mut Context<'_>,
    ) -> std::task::Poll<Option<R>> {
        let (rt, me) = (self.rt.clone(), self.me);
        let polled = self.inner.poll(&mut rt.borrow_mut(), Some(me));
        match polled {
            Poll::Ready(output) => std::task::Poll::Ready(output),
            Poll::Pending => std::task::Poll::Pending,
        }
    }
}

fn block_on<S: 'static, R: 'static>(
    params: RuntimeParams,
    make: fn(Env<S, R>, S) -> Pin<Box<dyn Future<Output = R>>>,
    data: S,
) -> R {
    let rt: Shared<R> = Rc::new(RefCell::new(Runtime::new(&params, 1)));
    let ids = Rc::new(RefCell::new(TaskIds::new()));
    let task = Task::new(&mut ids.borrow_mut());
    let (rt2, ids2) = (rt.clone(), ids.clone());
    let mut main = MainLoop::start(&mut rt.borrow_mut(), task, move |me| {
        let env = Env {
            me,
            rt: rt2,
            ids: ids2,
            make,
        };
        Rc::new(RefCell::new(make(env, data)))
    })
    .expect("an empty runtime has room");
    for _ in 0..1000 {
        main.begin_turn(&mut rt.borrow_mut(), &[]);
        loop {
            let next = main.next_task(&mut rt.borrow_mut(), 8);
            match next {
                NextTask::Over => break,
                NextTask::Cancel(requests) => assert!(requests.is_empty()),
                NextTask::Poll(t) => {
                    let future = rt.borrow_mut().tasks_mut().future_mut(t).clone();
                    let mut cx = Context::from_waker(Waker::noop());
                    let outcome = match future.borrow_mut().as_mut().poll(&mut cx) {
                        std::task::Poll::Ready(value) => Some(value),
                        std::task::Poll::Pending => None,
                    };
                    let requests = main.task_polled(&mut rt.borrow_mut(), t, outcome, 8);
                    assert!(requests.is_empty());
                }
            }
        }
        let end = main.end_turn(&rt.borrow());
        match end {
            TurnEnd::Done => return main.into_output().expect("the main task is done"),
            TurnEnd::Again => {}
            TurnEnd::Wait => panic!("nothing is in flight"),
        }
    }
    panic!("the tasks do not end");
}

#[test]
fn block_on_trivial() {
    block_on::<(), ()>(params(4), |_, _| Box::pin(async move {}), ());
}

#[test]
fn block_on_with_spawn() {
    block_on::<u32, ()>(
        params(4),
        |env, data| {
            Box::pin(async move {
                if data < 3 {
                    env.spawn(data + 1);
                }
            })
        },
        0,
    );
}

#[test]
fn block_on_spawn_chain() {
    block_on::<u32, ()>(
        params(16),
        |env, data| {
            Box::pin(async move {
                if data < 3 {
                    env.spawn(data + 1);
                    env.spawn(data + 2);
                }
            })
        },
        0,
    );
}

#[test]
fn block_on_returns_main_output() {
    let out = block_on::<u32, u32>(
        params(4),
        |_, data| Box::pin(async move { data + 1 }),
        41,
    );
    assert_eq!(out, 42);
}

#[test]
fn join_yields_task_output() {
    let out = block_on::<u32, u32>(
        params(4),
        |env, data| {
            Box::pin(async move {
                if data < 42 {
                    if let Some(handle) = env.spawn(data + 1) {
                        let joined = env.join(handle).await;
                        assert_eq!(joined, Some(data + 1));
                    }
                }
                data
            })
        },
        41,
    );
    assert_eq!(out, 41);
}

#[test]
fn join_after_cancel_returns_none() {
    let out = block_on::<u32, u32>(
        params(4),
        |env, data| {
            Box::pin(async move {
                if data < 42 {
                    if let Some(handle) = env.spawn(data + 1) {
                        assert!(handle.cancel(&mut env.rt.borrow_mut()));
                        let joined = env.join(handle).await;
                        assert_eq!(joined, None);
                    }
                }
                7
            })
        },
        41,
    );
    assert_eq!(out, 7);
}

#[test]
fn into_handle_resumes_later_join() {
    block_on::<u32, u32>(
        params(4),
        |env, data| {
            Box::pin(async move {
                if data < 42 {
                    if let Some(handle) = env.spawn(data + 1) {
                        // The target runs to its end unjoined.
                        let _ = handle.join().into_handle(&mut env.rt.borrow_mut());
                    }
                }
                0
            })
        },
        41,
    );
}

#[test]
fn joining_through_a_fresh_handle_works() {
    let out = block_on::<u32, u32>(
        params(4),
        |env, data| {
            Box::pin(async move {
                if data < 42 {
                    if let Some(handle) = env.spawn(data + 1) {
                        let again = handle.join().into_handle(&mut env.rt.borrow_mut());
                        assert!(!again.is_finished(&env.rt.borrow()));
                        return env.join(again).await.unwrap();
                    }
                }
                data
            })
        },
        41,
    );
    assert_eq!(out, 42);
}

#[test]
fn later_task_in_the_first_slot_does_not_replace_the_result() {
    // The first task ends at once. Its child, and the child of that one, run
    // in turn; one of them gets the slot that the first task had.
    let out = block_on::<u32, u32>(
        params(2),
        |env, data| {
            Box::pin(async move {
                if data < 3 {
                    assert!(env.spawn(data + 1).is_some());
                    if data > 0 {
                        assert_ne!(env.me.task_id, 1);
                    }
                }
                data
            })
        },
        0,
    );
    assert_eq!(out, 0);
}

struct Turns {
    left: u32,
    rt: Shared<u32>,
    me: TaskContext,
}

impl Future for Turns {
    type Output = ();

    fn poll(mut self: Pin<&mut Self>, _cx: &mut Context<'_>) -> std::task::Poll<()> {
        if self.left == 0 {
            return std::task::Poll::Ready(());
        }
        self.left -= 1;
        self.me.wake(&mut self.rt.borrow_mut());
        std::task::Poll::Pending
    }
}

#[test]
fn joining_a_task_that_has_gone_gives_its_output() {
    let out = block_on::<u32, u32>(
        params(4),
        |env, data| {
            Box::pin(async move {
                if data == 41 {
                    let first = env.spawn(1).unwrap();
                    let second = env.spawn(2).unwrap();
                    let turns = Turns {
                        left: 5,
                        rt: env.rt.clone(),
                        me: env.me,
                    };
                    turns.await;
                    assert!(first.is_finished(&env.rt.borrow()));
                    // Another task takes the slot in the meantime.
                    let third = env.spawn(3).unwrap();
                    assert_eq!(env.join(second).await, Some(2));
                    assert_eq!(env.join(first).await, Some(1));
                    assert_eq!(env.join(third).await, Some(3));
                }
                data
            })
        },
        41,
    );
    assert_eq!(out, 41);
}

#[test]
fn detached_task_leaves_no_output() {
    let mut ids = TaskIds::new();
    let mut rt: Runtime<(), u32> = Runtime::new(&params(4), 1);
    let mut main = MainLoop::start(&mut rt, Task::new(&mut ids), |_| ()).unwrap();
    let gone = rt.spawn(Task::new(&mut ids), |_| ()).unwrap();
    let ctx = gone.context();
    gone.detach(&mut rt);
    assert!(rt.tasks().task(ctx.task_index).is_detached());
    let wanted = rt.spawn(Task::new(&mut ids), |_| ()).unwrap();
    let dropped = rt.spawn(Task::new(&mut ids), |_| ()).unwrap();
    let late = dropped.context();
    for t in [ctx.task_index, wanted.context().task_index, late.task_index] {
        assert!(main.task_polled(&mut rt, t, Some(t), 8).is_empty());
        assert!(!rt.has_task(t));
    }
    let t = wanted.context().task_index;
    dropped.join().release(&mut rt);
    assert_eq!(wanted.join().poll(&mut rt, None), Poll::Ready(Some(t)));
    assert_eq!(main.into_output(), None);
}

#[test]
fn completed_wait_leaves_the_next_waiter_alone() {
    let mut ids = TaskIds::new();
    let mut rt = test_runtime();
    let first = add_task(&mut rt, &mut ids);
    let second = add_task(&mut rt, &mut ids);
    let mut notify = Notify::new();
    let mut done = notify.wait(first);
    assert!(matches!(done.poll(&mut notify), Poll::Pending));
    notify.notify(&mut rt, 1);
    assert!(matches!(done.poll(&mut notify), Poll::Ready(1)));
    let mut wait = notify.wait(second);
    assert!(matches!(wait.poll(&mut notify), Poll::Pending));
    done.release(&mut notify);
    assert!(notify.has_waiter());
    notify.notify(&mut rt, 2);
    assert_eq!(rt.wakeups().last(), Some(&second.task_index));
    assert!(matches!(wait.poll(&mut notify), Poll::Ready(2)));
    // One that goes without having got a value is no longer woken.
    let mut gone = notify.wait(first);
    assert!(matches!(gone.poll(&mut notify), Poll::Pending));
    gone.release(&mut notify);
    assert!(!notify.has_waiter());
    let woken = rt.wakeups().len();
    notify.notify(&mut rt, 3);
    assert_eq!(rt.wakeups().len(), woken);
}

#[test]
fn cancelled_task_waits_for_its_operations() {
    let mut ids = TaskIds::new();
    let mut rt = test_runtime();
    let handle = rt.spawn(Task::new(&mut ids), |_| ()).unwrap();
    let ctx = handle.context();
    let (slot, tag) = ops::submit(&mut rt, ctx);
    assert!(handle.cancel(&mut rt));
    let requests = rt.finalize_task(ctx.task_index, 8);
    // The operation is cancelled, and the task stays until that is through.
    assert_eq!(requests.len(), 1);
    assert_eq!(requests[0].victim, tag);
    assert!(rt.has_task(ctx.task_index));
    let mut ready = Vec::new();
    rt.drain_cqes(&[done(tag, -libc::ECANCELED)], &mut ready);
    assert!(ready.is_empty());
    rt.drain_cqes(&[done(requests[0].user_data, 0)], &mut ready);
    assert_eq!(ready, vec![ctx.task_index]);
    assert!(rt.finalize_task(ctx.task_index, 8).is_empty());
    assert!(!rt.has_task(ctx.task_index));
    assert!(!rt.has_io_in_flight());
    let _ = slot;
}

#[test]
fn spawning_is_for_the_running_generation() {
    let mut ids = TaskIds::new();
    let mut active = Generation::new();
    let generation = active.enter_active_gen();
    let mut rt: Runtime<(), ()> = Runtime::new(&params(1), generation);
    let context = RuntimeContext { generation };
    let handle = context.spawn(&active, &mut rt, Task::new(&mut ids), |_| ());
    assert!(handle.is_some());
    assert!(
        context
            .spawn(&active, &mut rt, Task::new(&mut ids), |_| ())
            .is_none()
    );
}

#[test]
fn full_completion_ring_is_no_error() {
    assert!(MainLoop::<()>::goes_on(None));
    assert!(MainLoop::<()>::goes_on(Some(EBUSY)));
    assert!(!MainLoop::<()>::goes_on(Some(libc::EBADF)));
    assert_eq!(EBUSY, libc::EBUSY);
}
