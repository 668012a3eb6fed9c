//! The runtime's bookkeeping: which tasks run, which operations are in flight,
//! and where a completion goes.

use std::collections::HashMap;

use vstd::prelude::*;

use crate::coio::buffers;
use crate::coio::buffers::Buffers;
use crate::coio::classes;
use crate::coio::classes::SizeClass;
use crate::coio::op;
use crate::coio::op::IoSlot;
use crate::coio::op::IoUserData;
use crate::coio::op::IoVec;
use crate::coio::task;
use crate::coio::task::Task;
use crate::coio::task::TaskSlab;
use crate::coio::task::TaskState;
use crate::coio::task::NO_JOINER;

pub mod block_on;
pub mod join;
pub mod ops;

verus! {

/// How large a runtime to build.
pub struct RuntimeParams {
    pub tasks_capacity: u32,
    pub ring_entries: u32,
    /// The classes of the buffers that reads fill. Each count is a power of
    /// two no larger than 32768.
    pub provided_size_classes: Vec<SizeClass>,
    /// The classes of the buffers that writes and operation arguments use.
    pub size_classes: Vec<SizeClass>,
}

impl Default for RuntimeParams {
    fn default() -> (params: Self)
        ensures
            params.tasks_capacity == 1024,
            params.ring_entries == 1024,
            params.provided_size_classes@ == classes::default_classes(),
            params.size_classes@ == classes::default_classes(),
    {
        RuntimeParams {
            tasks_capacity: 1024,
            ring_entries: 1024,
            provided_size_classes: classes::default_size_classes(),
            size_classes: classes::default_size_classes(),
        }
    }
}

/// One completion, as it comes off the ring.
#[derive(Clone, Copy, Debug, PartialEq, Eq, Structural)]
pub struct Completion {
    pub user_data: u64,
    pub result: i32,
    pub flags: u32,
}

/// The buffer that the flags of a completion name: with the lowest bit set,
/// the one whose id is in the upper half.
pub open spec fn selected_buffer(flags: u32) -> Option<u16> {
    if flags & 1 != 0 {
        Some((flags >> 16) as u16)
    } else {
        None
    }
}

/// Calls `io_uring::cqueue::buffer_select`. The flag for a selected buffer is
/// the lowest bit and the buffer's id is kept in the upper sixteen.
#[verifier::external_body]
fn buffer_select(flags: u32) -> (bid: Option<u16>)
    ensures
        bid == selected_buffer(flags),
{
    io_uring::cqueue::buffer_select(flags)
}

/// A request to cancel an operation: the operation's tag and the request's
/// own.
#[derive(Clone, Copy, Debug, PartialEq, Eq, Structural)]
pub struct Cancel {
    pub victim: u64,
    pub user_data: u64,
}

/// What the runtime keeps: tasks, tasks to poll next, operation slots, and
/// the slots that are free.
#[verifier::ext_equal]
pub struct Sched {
    pub tasks: Seq<Option<TaskState>>,
    pub wakeups: Seq<u32>,
    pub io: Seq<IoSlot>,
    pub free: Seq<u32>,
}

impl Sched {
    /// Whether there is a task in slot `t`.
    pub open spec fn has(self, t: int) -> bool {
        0 <= t < self.tasks.len() && self.tasks[t] is Some
    }

    /// The same with task `t` in another state.
    pub open spec fn with_task(self, t: int, state: TaskState) -> Sched {
        Sched { tasks: self.tasks.update(t, Some(state)), ..self }
    }

    /// The slot that the next operation gets: the one freed last, else a new
    /// one.
    pub open spec fn next_slot(self) -> u32 {
        if self.free.len() > 0 {
            self.free.last()
        } else {
            self.io.len() as u32
        }
    }

    /// After the next operation got its slot.
    pub open spec fn slot_taken(self) -> Sched {
        if self.free.len() > 0 {
            let i = self.free.last() as int;
            Sched {
                io: self.io.update(i, IoSlot { submitted: 1, ..self.io[i] }),
                free: self.free.drop_last(),
                ..self
            }
        } else {
            Sched { io: self.io.push(IoSlot { submitted: 1, ..op::unused() }), ..self }
        }
    }

    /// After slot `i` was given back.
    pub open spec fn slot_freed(self, i: u32) -> Sched {
        Sched { io: self.io.update(i as int, op::unused()), free: self.free.push(i), ..self }
    }

    /// Whether any operation is in flight.
    pub open spec fn busy(self) -> bool {
        exists|i: int| 0 <= i < self.io.len() && (#[trigger] self.io[i]).in_flight()
    }

    /// After task `t` submitted an operation.
    pub open spec fn op_started(self, t: int) -> Sched {
        let s = self.slot_taken();
        let state = s.tasks[t]->Some_0;
        s.with_task(t, TaskState { io: state.io.push(self.next_slot()), ..state })
    }

    /// After task `t` was done with the operation in slot `i`.
    pub open spec fn op_ended(self, t: int, i: u32) -> Sched {
        let s = self.slot_freed(i);
        let state = s.tasks[t]->Some_0;
        s.with_task(t, TaskState { io: op::swap_removed(state.io, i), ..state })
    }

    /// After task `t` was removed. The task that waits for it is woken.
    pub open spec fn task_removed(self, t: int) -> Sched {
        let joiner = self.tasks[t]->Some_0.joiner;
        Sched {
            tasks: self.tasks.update(t, None),
            wakeups: if joiner != NO_JOINER {
                self.wakeups.push(joiner)
            } else {
                self.wakeups
            },
            ..self
        }
    }

    /// After a request to cancel the operation in `victim` was made for task
    /// `t`: it occupies a slot of its own, which is given back when the ring
    /// is full.
    pub open spec fn cancel_pushed(self, t: int, pushed: bool) -> Sched {
        let s = self.op_started(t);
        if pushed {
            s
        } else {
            s.op_ended(t, self.next_slot())
        }
    }

    /// After requests to cancel `victims` were made for task `t`, of which the
    /// ring takes `room`.
    pub open spec fn cancels_pushed(self, t: int, victims: Seq<u32>, room: int) -> Sched
        decreases victims.len(),
    {
        if victims.len() == 0 {
            self
        } else {
            let s = self.cancel_pushed(t, room > 0);
            s.cancels_pushed(t, victims.skip(1), room - 1)
        }
    }

    /// The requests that reach the ring.
    pub open spec fn cancels(self, t: int, victims: Seq<u32>, room: int) -> Seq<Cancel>
        decreases victims.len(),
    {
        if victims.len() == 0 || room <= 0 {
            Seq::empty()
        } else {
            let request = Cancel {
                victim: op::tag(IoUserData { index: t as u32, io_slot: victims[0] }),
                user_data: op::tag(IoUserData { index: t as u32, io_slot: self.next_slot() }),
            };
            seq![request] + self.cancel_pushed(t, true).cancels(t, victims.skip(1), room - 1)
        }
    }

    /// `after` is this state with the completed operations of task `t` given
    /// back, in some order.
    pub open spec fn reaped(self, after: Sched, t: int) -> bool {
        let held = self.tasks[t]->Some_0.io;
        let kept = after.tasks[t]->Some_0.io;
        &&& after.has(t)
        &&& after == (Sched { io: after.io, free: after.free, ..self }).with_task(
            t,
            TaskState { io: kept, ..self.tasks[t]->Some_0 },
        )
        &&& kept.no_duplicates()
        &&& forall|x: u32|
            #![trigger kept.contains(x)]
            #![trigger held.contains(x)]
            kept.contains(x) <==> held.contains(x) && !self.io[x as int].completed()
        &&& slots_given_back(self.io, self.free, after.io, after.free, held, kept)
        &&& (after.io, after.free, kept) == reap_from(self.io, self.free, held, 0)
    }
}

impl Sched {
    /// After the cancel requests of a finished task `t`, if it was cancelled.
    pub open spec fn after_cancels(self, t: int, room: int) -> Sched {
        let state = self.tasks[t]->Some_0;
        if state.cancel_requested {
            self.cancels_pushed(t, state.io, room)
        } else {
            self
        }
    }

    /// `after` is this state once the finished task `t` was finalized: its
    /// completed operations were given back, the others were cancelled if
    /// that was asked for, and the task went if it holds none.
    pub open spec fn finalized(self, after: Sched, t: int, room: int, cancels: Seq<Cancel>) -> bool {
        exists|mid: Sched|
            {
                let last = mid.after_cancels(t, room);
                &&& #[trigger] self.reaped(mid, t)
                &&& cancels == if mid.tasks[t]->Some_0.cancel_requested {
                    mid.cancels(t, mid.tasks[t]->Some_0.io, room)
                } else {
                    Seq::empty()
                }
                &&& after == if last.tasks[t]->Some_0.io.len() == 0 {
                    last.task_removed(t)
                } else {
                    last
                }
            }
    }

    /// Whether a completion names an operation slot and a task.
    pub open spec fn known(self, c: Completion) -> bool {
        let ud = op::untag(c.user_data);
        ud.io_slot < self.io.len() && self.has(ud.index as int)
    }

    /// After completion `c` came in. A completion for no task is dropped; one
    /// for a finished task only frees its slot; any other is recorded in its
    /// slot.
    pub open spec fn completion_seen(self, c: Completion) -> Sched {
        let ud = op::untag(c.user_data);
        let t = ud.index as int;
        let i = ud.io_slot as int;
        if !self.known(c) {
            self
        } else if self.tasks[t]->Some_0.finished {
            self.op_ended(t, ud.io_slot)
        } else {
            let slot = IoSlot {
                result: c.result,
                ready: 1,
                bid: match selected_buffer(c.flags) {
                    Some(bid) => bid,
                    None => self.io[i].bid,
                },
                ..self.io[i]
            };
            (Sched { io: self.io.update(i, slot), ..self }).with_task(
                t,
                TaskState { ready: true, ..self.tasks[t]->Some_0 },
            )
        }
    }

    /// The task that completion `c` makes ready, if it does: a running one
    /// that was not ready yet, or a finished one whose last operation this
    /// was.
    pub open spec fn made_ready(self, c: Completion) -> Seq<u32> {
        let t = op::untag(c.user_data).index;
        let due = self.known(c) && if self.tasks[t as int]->Some_0.finished {
            self.completion_seen(c).tasks[t as int]->Some_0.io.len() == 0
        } else {
            !self.tasks[t as int]->Some_0.ready
        };
        if due {
            seq![t]
        } else {
            Seq::empty()
        }
    }

    /// After completions `cs` came in, in order.
    pub open spec fn completions_seen(self, cs: Seq<Completion>) -> Sched
        decreases cs.len(),
    {
        if cs.len() == 0 {
            self
        } else {
            self.completions_seen(cs.drop_last()).completion_seen(cs.last())
        }
    }

    /// The tasks that completions `cs` make ready, in order.
    pub open spec fn all_made_ready(self, cs: Seq<Completion>) -> Seq<u32>
        decreases cs.len(),
    {
        if cs.len() == 0 {
            Seq::empty()
        } else {
            self.all_made_ready(cs.drop_last()) + self.completions_seen(cs.drop_last()).made_ready(
                cs.last(),
            )
        }
    }
}

/// The slots, the free ones and the slots of a task after those from place `k`
/// on that have completed were given back, in order. The last slot takes the
/// place of one that goes.
pub open spec fn reap_from(io: Seq<IoSlot>, free: Seq<u32>, held: Seq<u32>, k: int) -> (
    Seq<IoSlot>,
    Seq<u32>,
    Seq<u32>,
)
    decreases held.len() - k,
{
    if !(0 <= k < held.len()) {
        (io, free, held)
    } else if io[held[k] as int].completed() {
        reap_from(
            io.update(held[k] as int, op::unused()),
            free.push(held[k]),
            held.update(k, held.last()).drop_last(),
            k,
        )
    } else {
        reap_from(io, free, held, k + 1)
    }
}

/// The slots in `held` that are not in `kept` were given back, each once, and
/// no other.
pub open spec fn slots_given_back(
    io0: Seq<IoSlot>,
    free0: Seq<u32>,
    io1: Seq<IoSlot>,
    free1: Seq<u32>,
    held: Seq<u32>,
    kept: Seq<u32>,
) -> bool {
    let gone = free1.skip(free0.len() as int);
    &&& io1.len() == io0.len()
    &&& free1.len() >= free0.len()
    &&& free1.take(free0.len() as int) == free0
    &&& gone.no_duplicates()
    &&& forall|x: u32|
        #![trigger gone.contains(x)]
        #![trigger held.contains(x)]
        gone.contains(x) <==> held.contains(x) && !kept.contains(x)
    &&& forall|i: int|
        0 <= i < io0.len() ==> #[trigger] io1[i] == if held.contains(i as u32) && !kept.contains(
            i as u32,
        ) {
            op::unused()
        } else {
            io0[i]
        }
}

/// The kept outputs after a task in state `state` with `output` has gone.
pub open spec fn kept_with<R>(
    kept: Map<u64, R>,
    state: TaskState,
    output: Option<R>,
) -> Map<u64, R> {
    if state.output_pending {
        kept.insert(state.id, output->Some_0)
    } else {
        kept
    }
}

/// Tasks, operations and buffers of one run.
pub struct Runtime<F, R> {
    pub(crate) tasks: TaskSlab<F, R>,
    pub(crate) wakeups: Vec<u32>,
    pub(crate) io_slab: Vec<IoSlot>,
    pub(crate) free_io_slots: Vec<u32>,
    pub(crate) buffers: Buffers,
    /// Outputs of tasks that are gone, by task id.
    pub(crate) kept: HashMap<u64, R>,
}

impl<F, R> View for Runtime<F, R> {
    type V = Sched;

    closed spec fn view(&self) -> Sched {
        Sched {
            tasks: self.tasks.slots(),
            wakeups: self.wakeups@,
            io: self.io_slab@,
            free: self.free_io_slots@,
        }
    }
}

impl<F, R> Runtime<F, R> {
    /// The slabs are well formed and free slots are slots.
    pub closed spec fn wf(&self) -> bool {
        &&& self.tasks.wf()
        &&& self.tasks.settled()
        &&& self.buffers.wf()
        &&& self.io_slab@.len() <= u32::MAX
        &&& forall|k: int|
            0 <= k < self.free_io_slots@.len() ==> (#[trigger] self.free_io_slots@[k])
                < self.io_slab@.len()
    }

    pub closed spec fn task_slab(&self) -> TaskSlab<F, R> {
        self.tasks
    }

    pub closed spec fn pools(&self) -> Buffers {
        self.buffers
    }

    /// The outputs of tasks that are gone, by task id: each is kept until its
    /// handle takes it.
    pub closed spec fn kept(&self) -> Map<u64, R> {
        self.kept@
    }

    /// The outputs of tasks that are done but not gone.
    pub open spec fn outputs(&self) -> Seq<Option<R>> {
        self.task_slab().output_slots()
    }

    pub open spec fn futures(&self) -> Seq<Option<F>> {
        self.task_slab().future_slots()
    }

    /// The same futures, outputs and buffers.
    pub open spec fn same_contents(&self, other: &Self) -> bool {
        &&& self.futures() == other.futures()
        &&& self.outputs() == other.outputs()
        &&& self.kept() == other.kept()
        &&& self.pools() == other.pools()
    }

    /// What holds of every well-formed runtime.
    pub proof fn wf_means(&self)
        requires
            self.wf(),
        ensures
            self@.tasks == self.task_slab().slots(),
            self@.tasks.len() <= u32::MAX,
            self.task_slab().wf(),
            self.task_slab().settled(),
            self.futures().len() == self@.tasks.len(),
            self.outputs().len() == self@.tasks.len(),
            self@.io.len() <= u32::MAX,
            self.pools().wf(),
            forall|k: int| 0 <= k < self@.free.len() ==> (#[trigger] self@.free[k]) < self@.io.len(),
            forall|i: int|
                0 <= i < self@.tasks.len() ==> {
                    &&& (#[trigger] self@.tasks[i]) is Some <==> self.futures()[i] is Some
                    &&& self.outputs()[i] is Some <==> self@.tasks[i] is Some
                        && self@.tasks[i]->Some_0.output_pending
                },
    {
        self.tasks.wf_means();
    }

    /// A runtime with no tasks and nothing in flight.
    pub fn new(params: &RuntimeParams, generation: u32) -> (rt: Self)
        requires
            buffers::pools_ok(params.provided_size_classes@, params.size_classes@),
        ensures
            rt.wf(),
            rt@ == (Sched {
                tasks: Seq::new(params.tasks_capacity as nat, |i: int| None::<TaskState>),
                wakeups: Seq::empty(),
                io: Seq::empty(),
                free: Seq::empty(),
            }),
            rt.pools().built(
                params.provided_size_classes@,
                params.size_classes@,
                generation,
            ),
            rt.futures() == Seq::new(params.tasks_capacity as nat, |i: int| None::<F>),
            rt.outputs() == Seq::new(params.tasks_capacity as nat, |i: int| None::<R>),
            rt.kept() == Map::<u64, R>::empty(),
    {
        Runtime {
            tasks: TaskSlab::new(params.tasks_capacity),
            wakeups: Vec::new(),
            io_slab: Vec::new(),
            free_io_slots: Vec::new(),
            buffers: Buffers::build_pools(
                params.provided_size_classes.as_slice(),
                params.size_classes.as_slice(),
                generation,
            ),
            kept: HashMap::new(),
        }
    }

    pub fn tasks(&self) -> (tasks: &TaskSlab<F, R>)
        ensures
            *tasks == self.task_slab(),
    {
        &self.tasks
    }

    pub fn wakeups(&self) -> (wakeups: &Vec<u32>)
        ensures
            wakeups@ == self@.wakeups,
    {
        &self.wakeups
    }

    pub fn io_slab(&self) -> (slots: &Vec<IoSlot>)
        ensures
            slots@ == self@.io,
    {
        &self.io_slab
    }

    pub fn free_io_slots(&self) -> (free: &Vec<u32>)
        ensures
            free@ == self@.free,
    {
        &self.free_io_slots
    }

    pub fn buffers(&self) -> (buffers: &Buffers)
        ensures
            *buffers == self.pools(),
    {
        &self.buffers
    }

    /// The buffers, to allocate from.
    pub fn buffers_mut(&mut self) -> (buffers: &mut Buffers)
        requires
            old(self).wf(),
        ensures
            *buffers == old(self).pools(),
            final(self).pools() == *final(buffers),
            final(self)@ == old(self)@,
            final(self).futures() == old(self).futures(),
            final(self).outputs() == old(self).outputs(),
            final(self).kept() == old(self).kept(),
            final(buffers).wf() ==> final(self).wf(),
    {
        &mut self.buffers
    }

    pub fn tasks_mut(&mut self) -> (tasks: &mut TaskSlab<F, R>)
        requires
            old(self).wf(),
        ensures
            *tasks == old(self).task_slab(),
            final(self).task_slab() == *final(tasks),
            final(self)@.wakeups == old(self)@.wakeups,
            final(self)@.io == old(self)@.io,
            final(self)@.free == old(self)@.free,
            final(self)@.tasks == final(tasks).slots(),
            final(self).pools() == old(self).pools(),
            final(self).kept() == old(self).kept(),
            final(tasks).wf() && final(tasks).settled() ==> final(self).wf(),
    {
        &mut self.tasks
    }

    /// Takes an operation slot and marks it submitted.
    pub fn alloc_io_slot(&mut self) -> (index: u32)
        requires
            old(self).wf(),
            old(self)@.free.len() == 0 ==> old(self)@.io.len() < u32::MAX,
        ensures
            final(self).wf(),
            index == old(self)@.next_slot(),
            final(self)@ == old(self)@.slot_taken(),
            final(self).same_contents(&*old(self)),
    {
        if self.free_io_slots.len() > 0 {
            let index: u32 = self.free_io_slots.pop().unwrap();
            let slot: IoSlot = self.io_slab[index as usize];
            self.io_slab.set(index as usize, IoSlot { submitted: 1, ..slot });
            assert(self@ =~= old(self)@.slot_taken());
            index
        } else {
            let index: u32 = self.io_slab.len() as u32;
            self.io_slab.push(IoSlot { result: 0, submitted: 1, ready: 0, bid: 0 });
            assert(self@ =~= old(self)@.slot_taken());
            index
        }
    }

    /// Gives slot `index` back.
    pub fn free_io_slot(&mut self, index: u32)
        requires
            old(self).wf(),
            index < old(self)@.io.len(),
        ensures
            final(self).wf(),
            final(self)@ == old(self)@.slot_freed(index),
            final(self).same_contents(&*old(self)),
    {
        self.io_slab.set(index as usize, IoSlot::default());
        self.free_io_slots.push(index);
        assert(self@ =~= old(self)@.slot_freed(index));
    }

    /// Whether any operation is in flight.
    pub fn has_io_in_flight(&self) -> (busy: bool)
        ensures
            busy == self@.busy(),
    {
        let mut i: usize = 0;
        while i < self.io_slab.len()
            invariant
                i <= self.io_slab@.len(),
                forall|k: int| 0 <= k < i ==> !(#[trigger] self.io_slab@[k]).in_flight(),
            decreases self.io_slab@.len() - i,
        {
            let slot: IoSlot = self.io_slab[i];
            if slot.submitted != 0 && slot.ready == 0 {
                assert(self@.io[i as int].in_flight());
                return true;
            }
            i = i + 1;
        }
        false
    }

    /// Gives the slots in `io` back whose operations have completed, and takes
    /// them out of `io`. The others stay for their completions.
    pub fn reap_io_slots(&mut self, io: &mut IoVec)
        requires
            old(self).wf(),
            old(io)@.no_duplicates(),
            forall|k: int| 0 <= k < old(io)@.len() ==> (#[trigger] old(io)@[k]) < old(self)@.io.len(),
        ensures
            final(self).wf(),
            final(self).same_contents(&*old(self)),
            final(self)@.tasks == old(self)@.tasks,
            final(self)@.wakeups == old(self)@.wakeups,
            final(io)@.no_duplicates(),
            final(io)@.len() <= old(io)@.len(),
            forall|x: u32|
                #![trigger final(io)@.contains(x)]
                #![trigger old(io)@.contains(x)]
                final(io)@.contains(x) <==> old(io)@.contains(x) && !old(
                    self,
                )@.io[x as int].completed(),
            slots_given_back(
                old(self)@.io,
                old(self)@.free,
                final(self)@.io,
                final(self)@.free,
                old(io)@,
                final(io)@,
            ),
            (final(self)@.io, final(self)@.free, final(io)@) == reap_from(
                old(self)@.io,
                old(self)@.free,
                old(io)@,
                0,
            ),
    {
        let ghost held = io@;
        let ghost io0 = self@.io;
        let ghost free0 = self@.free;
        let ghost n0 = free0.len() as int;
        let mut i: usize = 0;
        assert(free0.take(n0) =~= free0);
        assert(free0.skip(n0) =~= Seq::empty());
        while i < io.len()
            invariant
                self.wf(),
                self.same_contents(&*old(self)),
                self@.tasks == old(self)@.tasks,
                self@.wakeups == old(self)@.wakeups,
                held == old(io)@,
                io0 == old(self)@.io,
                free0 == old(self)@.free,
                n0 == free0.len(),
                held.no_duplicates(),
                forall|k: int| 0 <= k < held.len() ==> (#[trigger] held[k]) < io0.len(),
                i <= io@.len() <= held.len(),
                io@.no_duplicates(),
                forall|x: u32| #[trigger] io@.contains(x) ==> held.contains(x),
                forall|x: u32| held.contains(x) && !(#[trigger] io@.contains(x))
                    ==> io0[x as int].completed(),
                forall|k: int| 0 <= k < i ==> !io0[(#[trigger] io@[k]) as int].completed(),
                slots_given_back(io0, free0, self@.io, self@.free, held, io@),
                reap_from(self@.io, self@.free, io@, i as int) == reap_from(io0, free0, held, 0),
            decreases io@.len() - i,
        {
            let x: u32 = io.slot_at(i);
            proof {
                assert(io@.contains(x));
                let k = held.index_of(x);
                assert(held[k] == x);
            }
            let slot: IoSlot = self.io_slab[x as usize];
            assert(self@.io[x as int] == io0[x as int]);
            if slot.submitted != 0 && slot.ready != 0 {
                let ghost before = io@;
                let ghost free1 = self@.free;
                let ghost io1 = self@.io;
                self.free_io_slot(x);
                let _ = io.remove_value(x);
                proof {
                    op::lemma_position(before, x);
                    op::lemma_swap_removed(before, x);
                    assert(op::position(before, x) == i);
                    assert forall|k: int| 0 <= k < i implies !io0[(
                    #[trigger] io@[k]) as int].completed() by {
                        assert(io@[k] == before[k]);
                    }
                    let gone = free1.skip(n0);
                    let gone2 = self@.free.skip(n0);
                    assert(gone2 =~= gone.push(x));
                    assert(self@.free.take(n0) =~= free1.take(n0));
                    assert(!gone.contains(x));
                    assert forall|y: u32|
                        #![trigger gone2.contains(y)]
                        #![trigger held.contains(y)]
                        gone2.contains(y) <==> held.contains(y) && !io@.contains(y) by {
                        assert(gone.contains(y) <==> held.contains(y) && !before.contains(y));
                        assert(io@.contains(y) <==> before.contains(y) && y != x);
                        if gone2.contains(y) {
                            let k = gone2.index_of(y);
                            if k < gone.len() {
                                assert(gone[k] == y);
                            }
                        }
                        if gone.contains(y) {
                            let k = gone.index_of(y);
                            assert(gone2[k] == y);
                        }
                        if y == x {
                            assert(gone2[gone.len() as int] == x);
                        }
                    }
                    assert(gone2.no_duplicates()) by {
                        assert forall|a: int, b: int|
                            0 <= a < gone2.len() && 0 <= b < gone2.len() && a != b implies gone2[a]
                            != gone2[b] by {
                            if a < gone.len() {
                                assert(gone.contains(gone[a]));
                            }
                            if b < gone.len() {
                                assert(gone.contains(gone[b]));
                            }
                        }
                    }
                    assert forall|j: int| 0 <= j < io0.len() implies #[trigger] self@.io[j] == if held.contains(
                        j as u32,
                    ) && !io@.contains(j as u32) {
                        op::unused()
                    } else {
                        io0[j]
                    } by {
                        assert(io1[j] == if held.contains(j as u32) && !before.contains(j as u32) {
                            op::unused()
                        } else {
                            io0[j]
                        });
                        assert(io@.contains(j as u32) <==> before.contains(j as u32) && j as u32
                            != x);
                    }
                }
            } else {
                i = i + 1;
            }
        }
        proof {
            assert forall|x: u32|
                #![trigger io@.contains(x)]
                #![trigger held.contains(x)]
                io@.contains(x) <==> held.contains(x) && !io0[x as int].completed() by {
                if io@.contains(x) {
                    let k = io@.index_of(x);
                    assert(!io0[io@[k] as int].completed());
                }
            }
        }
    }

    /// Whether there is a task in slot `t`.
    pub fn has_task(&self, t: u32) -> (there: bool)
        requires
            self.wf(),
        ensures
            there == self@.has(t as int),
    {
        proof {
            self.tasks.wf_means();
        }
        self.tasks.is_occupied(t)
    }

    /// Takes an operation slot for task `t`.
    pub fn start_op(&mut self, t: u32) -> (slot: u32)
        requires
            old(self).wf(),
            old(self)@.has(t as int),
            old(self)@.free.len() == 0 ==> old(self)@.io.len() < u32::MAX,
        ensures
            final(self).wf(),
            slot == old(self)@.next_slot(),
            final(self)@ == old(self)@.op_started(t as int),
            final(self).same_contents(&*old(self)),
    {
        let slot: u32 = self.alloc_io_slot();
        let task: &mut Task = self.tasks.task_mut(t);
        task.hold(slot);
        assert(self@ =~= old(self)@.op_started(t as int));
        slot
    }

    /// Gives slot `slot` of task `t` back.
    pub fn release_io(&mut self, t: u32, slot: u32)
        requires
            old(self).wf(),
            old(self)@.has(t as int),
            slot < old(self)@.io.len(),
        ensures
            final(self).wf(),
            final(self)@ == old(self)@.op_ended(t as int, slot),
            final(self).same_contents(&*old(self)),
    {
        self.free_io_slot(slot);
        let task: &mut Task = self.tasks.task_mut(t);
        let _ = task.let_go(slot);
        assert(self@ =~= old(self)@.op_ended(t as int, slot));
    }

    /// Makes a request to cancel the operation in slot `victim` of task `t`.
    /// When the ring has no room for it, its slot is given back.
    fn push_cancel(&mut self, t: u32, victim: u32, pushed: bool) -> (request: Cancel)
        requires
            old(self).wf(),
            old(self)@.has(t as int),
            old(self)@.free.len() == 0 ==> old(self)@.io.len() < u32::MAX,
        ensures
            final(self).wf(),
            final(self)@ == old(self)@.cancel_pushed(t as int, pushed),
            final(self).same_contents(&*old(self)),
            request == (Cancel {
                victim: op::tag(IoUserData { index: t, io_slot: victim }),
                user_data: op::tag(IoUserData { index: t, io_slot: old(self)@.next_slot() }),
            }),
    {
        let slot: u32 = self.start_op(t);
        if !pushed {
            self.release_io(t, slot);
        }
        Cancel {
            victim: u64::from(IoUserData { index: t, io_slot: victim }),
            user_data: u64::from(IoUserData { index: t, io_slot: slot }),
        }
    }

    /// Removes the finished task `t`, which holds no operation any more, and
    /// wakes the task that waits for it. An output that it has is kept.
    fn remove_task(&mut self, t: u32)
        requires
            old(self).wf(),
            old(self)@.has(t as int),
        ensures
            final(self).wf(),
            final(self)@ == old(self)@.task_removed(t as int),
            final(self).futures() == old(self).futures().update(t as int, None),
            final(self).outputs() == old(self).outputs().update(t as int, None),
            final(self).kept() == kept_with(
                old(self).kept(),
                old(self)@.tasks[t as int]->Some_0,
                old(self).outputs()[t as int],
            ),
            final(self).pools() == old(self).pools(),
    {
        broadcast use vstd::std_specs::hash::group_hash_axioms;

        proof {
            self.wf_means();
        }
        let joiner: u32 = self.tasks.task(t).joiner();
        if joiner != NO_JOINER {
            self.wakeups.push(joiner);
        }
        if self.tasks.task(t).has_output() {
            let id: u64 = self.tasks.context_for(t).task_id;
            let value: R = self.tasks.take_output(t);
            self.kept.insert(id, value);
        }
        let _ = self.tasks.remove(t);
        assert(self@ =~= old(self)@.task_removed(t as int));
        assert(self.outputs() =~= old(self).outputs().update(t as int, None));
    }

    /// Finalizes the finished task `t`. The submission ring takes `room` more
    /// entries; the cancel requests to submit come back.
    pub fn finalize_task(&mut self, t: u32, room: usize) -> (requests: Vec<Cancel>)
        requires
            old(self).wf(),
            old(self)@.has(t as int),
            old(self)@.tasks[t as int]->Some_0.finished,
            old(self)@.tasks[t as int]->Some_0.io.no_duplicates(),
            forall|k: int|
                0 <= k < old(self)@.tasks[t as int]->Some_0.io.len() ==> (#[trigger] old(
                    self,
                )@.tasks[t as int]->Some_0.io[k]) < old(self)@.io.len(),
            old(self)@.io.len() + old(self)@.tasks[t as int]->Some_0.io.len() < u32::MAX,
        ensures
            final(self).wf(),
            old(self)@.finalized(final(self)@, t as int, room as int, requests@),
            final(self)@.has(t as int) ==> final(self).same_contents(&*old(self)),
            !final(self)@.has(t as int) ==> {
                &&& final(self).futures() == old(self).futures().update(t as int, None)
                &&& final(self).outputs() == old(self).outputs().update(t as int, None)
                &&& final(self).kept() == kept_with(
                    old(self).kept(),
                    old(self)@.tasks[t as int]->Some_0,
                    old(self).outputs()[t as int],
                )
                &&& final(self).pools() == old(self).pools()
            },
    {
        let ghost start = self@;
        let ghost state = self@.tasks[t as int]->Some_0;
        let mut io: IoVec = IoVec::new();
        let task: &mut Task = self.tasks.task_mut(t);
        task.swap_io(&mut io);
        assert(self@ =~= start.with_task(t as int, TaskState { io: Seq::empty(), ..state }));
        self.reap_io_slots(&mut io);
        let task: &mut Task = self.tasks.task_mut(t);
        task.swap_io(&mut io);
        let ghost mid = self@;
        assert(start.reaped(mid, t as int)) by {
            assert(mid =~= (Sched { io: mid.io, free: mid.free, ..start }).with_task(
                t as int,
                TaskState { io: mid.tasks[t as int]->Some_0.io, ..state },
            ));
        }
        let mut requests: Vec<Cancel> = Vec::new();
        if self.tasks.task(t).is_cancelled() {
            requests = self.cancel_ops(t, room);
        }
        assert(self@ == mid.after_cancels(t as int, room as int));
        if self.tasks.task(t).holds_nothing() {
            self.remove_task(t);
        }
        requests
    }

    /// Makes requests to cancel all operations of task `t`.
    fn cancel_ops(&mut self, t: u32, room: usize) -> (requests: Vec<Cancel>)
        requires
            old(self).wf(),
            old(self)@.has(t as int),
            old(self)@.io.len() + old(self)@.tasks[t as int]->Some_0.io.len() < u32::MAX,
        ensures
            final(self).wf(),
            final(self)@ == old(self)@.cancels_pushed(
                t as int,
                old(self)@.tasks[t as int]->Some_0.io,
                room as int,
            ),
            final(self)@.has(t as int),
            final(self)@.tasks[t as int]->Some_0 == (TaskState {
                io: final(self)@.tasks[t as int]->Some_0.io,
                ..old(self)@.tasks[t as int]->Some_0
            }),
            requests@ == old(self)@.cancels(
                t as int,
                old(self)@.tasks[t as int]->Some_0.io,
                room as int,
            ),
            final(self).same_contents(&*old(self)),
    {
        let ghost start = self@;
        let ghost all = self@.tasks[t as int]->Some_0.io;
        let victims: Vec<u32> = self.tasks.task(t).held();
        let mut requests: Vec<Cancel> = Vec::new();
        let mut k: usize = 0;
        assert(all.skip(0) =~= all);
        while k < victims.len()
            invariant
                self.wf(),
                self@.has(t as int),
                self@.tasks[t as int]->Some_0 == (TaskState {
                    io: self@.tasks[t as int]->Some_0.io,
                    ..old(self)@.tasks[t as int]->Some_0
                }),
                self.same_contents(&*old(self)),
                victims@ == all,
                k <= all.len(),
                self@.io.len() <= start.io.len() + k,
                start.io.len() + all.len() < u32::MAX,
                start.cancels_pushed(t as int, all, room as int) == self@.cancels_pushed(
                    t as int,
                    all.skip(k as int),
                    room - k,
                ),
                start.cancels(t as int, all, room as int) == requests@ + self@.cancels(
                    t as int,
                    all.skip(k as int),
                    room - k,
                ),
            decreases all.len() - k,
        {
            let ghost now = self@;
            let ghost rest = all.skip(k as int);
            assert(rest.skip(1) =~= all.skip(k + 1));
            let pushed: bool = k < room;
            let request: Cancel = self.push_cancel(t, victims[k], pushed);
            if pushed {
                let ghost before = requests@;
                requests.push(request);
                assert(before + (seq![request] + self@.cancels(
                    t as int,
                    all.skip(k + 1),
                    room - (k + 1),
                )) =~= requests@ + self@.cancels(t as int, all.skip(k + 1), room - (k + 1)));
            }
            k = k + 1;
        }
        assert(requests@ + Seq::<Cancel>::empty() =~= requests@);
        requests
    }

    /// Takes completion `c` in. A task that it makes ready is put on `ready`.
    fn complete(&mut self, c: Completion, ready: &mut Vec<u32>)
        requires
            old(self).wf(),
        ensures
            final(self).wf(),
            final(self)@ == old(self)@.completion_seen(c),
            final(ready)@ == old(ready)@ + old(self)@.made_ready(c),
            final(self).same_contents(&*old(self)),
    {
        let ud: IoUserData = IoUserData::from(c.user_data);
        assert(ready@ + Seq::<u32>::empty() =~= ready@);
        if ud.io_slot as usize >= self.io_slab.len() {
            return;
        }
        if !self.has_task(ud.index) {
            return;
        }
        if self.tasks.task(ud.index).is_finished() {
            self.release_io(ud.index, ud.io_slot);
            if self.tasks.task(ud.index).holds_nothing() {
                ready.push(ud.index);
                assert(ready@ =~= old(ready)@ + seq![ud.index]);
            }
            return;
        }
        let mut slot: IoSlot = self.io_slab[ud.io_slot as usize];
        slot.result = c.result;
        match buffer_select(c.flags) {
            Some(bid) => {
                slot.bid = bid;
            },
            None => {},
        }
        slot.ready = 1;
        self.io_slab.set(ud.io_slot as usize, slot);
        if !self.tasks.task(ud.index).is_ready() {
            ready.push(ud.index);
            assert(ready@ =~= old(ready)@ + seq![ud.index]);
        }
        let task: &mut Task = self.tasks.task_mut(ud.index);
        task.set_ready(true);
        assert(self@ =~= old(self)@.completion_seen(c));
    }

    /// Takes completions in, in order. The tasks that they make ready are put
    /// on `ready`.
    pub fn drain_cqes(&mut self, cqes: &[Completion], ready: &mut Vec<u32>)
        requires
            old(self).wf(),
        ensures
            final(self).wf(),
            final(self)@ == old(self)@.completions_seen(cqes@),
            final(ready)@ == old(ready)@ + old(self)@.all_made_ready(cqes@),
            final(self).same_contents(&*old(self)),
    {
        let ghost start = self@;
        let mut k: usize = 0;
        assert(cqes@.take(0) =~= Seq::empty());
        assert(ready@ + Seq::<u32>::empty() =~= ready@);
        while k < cqes.len()
            invariant
                self.wf(),
                self.same_contents(&*old(self)),
                start == old(self)@,
                k <= cqes@.len(),
                self@ == start.completions_seen(cqes@.take(k as int)),
                ready@ == old(ready)@ + start.all_made_ready(cqes@.take(k as int)),
            decreases cqes@.len() - k,
        {
            let ghost before = ready@;
            let ghost now = self@;
            self.complete(cqes[k], ready);
            proof {
                let t = cqes@.take(k + 1);
                assert(t.drop_last() =~= cqes@.take(k as int));
                assert(t.last() == cqes@[k as int]);
                assert(ready@ =~= old(ready)@ + start.all_made_ready(t));
            }
            k = k + 1;
        }
        assert(cqes@.take(k as int) =~= cqes@);
    }
}

/// Runtimes with the same contents have the same futures, outputs and buffers.
pub proof fn same_contents_means_all_of_them<F, R>(a: &Runtime<F, R>, b: &Runtime<F, R>)
    requires
        a.same_contents(b),
    ensures
        a.futures() == b.futures(),
        a.outputs() == b.outputs(),
        a.kept() == b.kept(),
        a.pools() == b.pools(),
{
}

} // verus!
