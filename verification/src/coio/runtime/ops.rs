//! The steps of an operation, from its submission until its task has the
//! result.

use vstd::prelude::*;

use crate::coio::buf::Bytes;
use crate::coio::buf::Handle;
use crate::coio::buf::Span;
use crate::coio::buffers::Buffers;
use crate::coio::buffers::EFBIG;
use crate::coio::classes;
use crate::coio::op;
use crate::coio::op::IoSlot;
use crate::coio::op::IoUserData;
use crate::coio::pool::Slab;
use crate::coio::runtime::join::Poll;
use crate::coio::runtime::Runtime;
use crate::coio::runtime::Sched;
use crate::coio::task;
use crate::coio::task::TaskContext;

verus! {

/// The error of a submission that the ring has no room for.
pub const EAGAIN: i32 = 11;

/// Gives way to the other tasks once.
pub struct Yield {
    ctx: TaskContext,
    polled: bool,
}

/// A future that lets the other tasks run before its own goes on.
pub fn yield_now(ctx: TaskContext) -> (y: Yield)
    ensures
        y.context() == ctx,
        !y.was_polled(),
{
    Yield { ctx, polled: false }
}

impl Yield {
    pub closed spec fn context(&self) -> TaskContext {
        self.ctx
    }

    pub closed spec fn was_polled(&self) -> bool {
        self.polled
    }

    /// Whether the future was polled before.
    pub fn polled(&self) -> (polled: bool)
        ensures
            polled == self.was_polled(),
    {
        self.polled
    }

    /// The first poll has the task polled again; the second is done.
    pub fn poll<F, R>(&mut self, rt: &mut Runtime<F, R>) -> (poll: Poll<()>)
        requires
            old(rt).wf(),
            !old(self).was_polled() ==> task::context_error(
                old(self).context(),
                true,
                old(rt)@.tasks,
            ) is None,
        ensures
            final(rt).wf(),
            final(rt).same_contents(&*old(rt)),
            final(self).was_polled(),
            final(self).context() == old(self).context(),
            if old(self).was_polled() {
                poll == Poll::Ready(()) && final(rt)@ == old(rt)@
            } else {
                poll == Poll::<()>::Pending && final(rt)@ == (Sched {
                    wakeups: old(rt)@.wakeups.push(old(self).context().task_index),
                    ..old(rt)@
                })
            },
    {
        if self.polled {
            Poll::Ready(())
        } else {
            self.polled = true;
            self.ctx.wake(rt);
            Poll::Pending
        }
    }
}

/// Polls for the result of the operation in slot `slot`. While there is none,
/// the task is polled again.
pub fn await_cqe<F, R>(rt: &mut Runtime<F, R>, ctx: TaskContext, slot: u32) -> (poll: Poll<i32>)
    requires
        old(rt).wf(),
        task::context_error(ctx, true, old(rt)@.tasks) is None,
        slot < old(rt)@.io.len(),
    ensures
        final(rt).wf(),
        final(rt).same_contents(&*old(rt)),
        if old(rt)@.io[slot as int].ready != 0 {
            poll == Poll::Ready(old(rt)@.io[slot as int].result) && final(rt)@ == old(rt)@
        } else {
            poll == Poll::<i32>::Pending && final(rt)@ == (Sched {
                wakeups: old(rt)@.wakeups.push(ctx.task_index),
                ..old(rt)@
            })
        },
{
    let state: IoSlot = rt.io_slab[slot as usize];
    if state.ready != 0 {
        return Poll::Ready(state.result);
    }
    ctx.wake(rt);
    Poll::Pending
}

/// Takes a slot for an operation of the context's task. The slot and the tag
/// to submit the operation with come back.
pub fn submit<F, R>(rt: &mut Runtime<F, R>, ctx: TaskContext) -> (submission: (u32, u64))
    requires
        old(rt).wf(),
        task::context_error(ctx, true, old(rt)@.tasks) is None,
        old(rt)@.free.len() == 0 ==> old(rt)@.io.len() < u32::MAX,
    ensures
        final(rt).wf(),
        final(rt)@ == old(rt)@.op_started(ctx.task_index as int),
        final(rt).same_contents(&*old(rt)),
        submission.0 == old(rt)@.next_slot(),
        submission.1 == op::tag(
            IoUserData { index: ctx.task_index, io_slot: old(rt)@.next_slot() },
        ),
{
    let slot: u32 = rt.start_op(ctx.task_index);
    (slot, u64::from(IoUserData { index: ctx.task_index, io_slot: slot }))
}

/// Goes on after the submission for slot `slot` was handed to the ring, which
/// took it or not.
pub fn submitted<F, R>(rt: &mut Runtime<F, R>, ctx: TaskContext, slot: u32, taken: bool) -> (went:
    Result<(), i32>)
    requires
        old(rt).wf(),
        task::context_error(ctx, true, old(rt)@.tasks) is None,
        slot < old(rt)@.io.len(),
    ensures
        final(rt).wf(),
        final(rt).same_contents(&*old(rt)),
        if taken {
            went is Ok && final(rt)@ == old(rt)@
        } else {
            went == Err::<(), i32>(EAGAIN) && final(rt)@ == old(rt)@.op_ended(
                ctx.task_index as int,
                slot,
            )
        },
{
    if taken {
        return Ok(());
    }
    rt.release_io(ctx.task_index, slot);
    Err(EAGAIN)
}

/// Goes on with the result of the operation in slot `slot`. A negative one is
/// an error, and the slot is given back; else the slot is still held.
pub fn completed<F, R>(
    rt: &mut Runtime<F, R>,
    ctx: TaskContext,
    slot: u32,
    result: i32,
) -> (outcome: Result<(u32, i32), i32>)
    requires
        old(rt).wf(),
        task::context_error(ctx, true, old(rt)@.tasks) is None,
        slot < old(rt)@.io.len(),
        result > i32::MIN,
    ensures
        final(rt).wf(),
        final(rt).same_contents(&*old(rt)),
        if result < 0 {
            outcome == Err::<(u32, i32), i32>((-result) as i32) && final(rt)@ == old(
                rt,
            )@.op_ended(ctx.task_index as int, slot)
        } else {
            outcome == Ok::<(u32, i32), i32>((slot, result)) && final(rt)@ == old(rt)@
        },
{
    if result < 0 {
        rt.release_io(ctx.task_index, slot);
        return Err(-result);
    }
    Ok((slot, result))
}

/// The provided class that a read of up to `max_len` bytes selects its buffer
/// from.
pub fn read_class<F, R>(rt: &Runtime<F, R>, max_len: usize) -> (class: Result<u8, i32>)
    requires
        rt.wf(),
    ensures
        ({
            let fit = classes::first_fit(rt.pools().provided_classes(), max_len as int);
            class == if fit < rt.pools().provided_classes().len() {
                Ok::<u8, i32>(fit as u8)
            } else {
                Err::<u8, i32>(EFBIG)
            }
        }),
{
    proof {
        classes::lemma_first_fit(rt.pools().provided_classes(), max_len as int);
    }
    match rt.buffers.provided_class_for(max_len) {
        Some(class) => Ok(class as u8),
        None => Err(EFBIG),
    }
}

/// Hands out the buffer that a read in slot `slot` filled with `result` bytes,
/// and gives the slot back.
pub fn read_done<F, R>(
    rt: &mut Runtime<F, R>,
    ctx: TaskContext,
    class: u8,
    slot: u32,
    result: u32,
) -> (view: Bytes)
    requires
        old(rt).wf(),
        task::context_error(ctx, true, old(rt)@.tasks) is None,
        slot < old(rt)@.io.len(),
        class < old(rt).pools().provided_slabs().len(),
        ({
            let local = old(rt)@.io[slot as int].bid;
            let slab = old(rt).pools().provided_slabs()[class as int];
            local < slab.counts().len() && slab.counts()[local as int] == 0 && result
                <= slab.shape().size
        }),
    ensures
        final(rt).wf(),
        final(rt)@ == old(rt)@.op_ended(ctx.task_index as int, slot),
        final(rt).futures() == old(rt).futures(),
        final(rt).outputs() == old(rt).outputs(),
        final(rt).kept() == old(rt).kept(),
        view@ == (Span {
            at: Handle {
                provided: true,
                bid: classes::packed(class as u32, old(rt)@.io[slot as int].bid as u32),
                generation: old(rt).pools().generation_view(),
                offset: 0,
            },
            len: result,
        }),
        final(rt).pools().covers(view@),
        Buffers::viewed(&old(rt).pools(), &final(rt).pools(), view@.at, 1),
{
    let state: IoSlot = rt.io_slab[slot as usize];
    rt.release_io(ctx.task_index, slot);
    rt.buffers.provided_bytes(class, state.bid, result)
}

/// The errors that operations and the loop report are the kernel's: no room
/// in the ring, a ring that is busy, a file that is too large, no buffer left.
pub proof fn errors_are_the_kernels()
    ensures
        EAGAIN == 11,
        EFBIG == 27,
        crate::coio::buffers::ENOBUFS == 105,
        crate::coio::runtime::block_on::EBUSY == 16,
{
}

} // verus!
