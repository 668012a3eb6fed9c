//! Tasks, the slab that holds them with their futures and outputs, and the
//! contexts by which a task is addressed.

use vstd::prelude::*;

use crate::coio::bits;
use crate::coio::op::IoVec;

verus! {

/// No task waits for this one.
pub const NO_JOINER: u32 = 0xffff_ffff;

/// Hands out task ids.
pub struct TaskIds {
    next: u64,
}

impl TaskIds {
    /// The id that comes next.
    pub closed spec fn upcoming(&self) -> u64 {
        self.next
    }

    pub fn new() -> (ids: Self)
        ensures
            ids.upcoming() == 1,
    {
        TaskIds { next: 1 }
    }

    /// An id that was not handed out before.
    pub fn fresh(&mut self) -> (id: u64)
        requires
            old(self).upcoming() < u64::MAX,
        ensures
            id == old(self).upcoming(),
            final(self).upcoming() == id + 1,
    {
        let id: u64 = self.next;
        self.next = id + 1;
        id
    }
}

/// What the runtime knows of a task.
pub struct Task {
    pub ready: bool,
    finished: bool,
    cancel_requested: bool,
    output_pending: bool,
    detached: bool,
    joiner: u32,
    pub io: IoVec,
    id: u64,
}

/// A task's state.
#[verifier::ext_equal]
pub struct TaskState {
    /// Queued to be polled.
    pub ready: bool,
    /// Its future is done, or was cancelled.
    pub finished: bool,
    /// Its operations are to be cancelled.
    pub cancel_requested: bool,
    /// It has an output that nobody has taken.
    pub output_pending: bool,
    /// Nobody wants its output.
    pub detached: bool,
    /// The task that waits for this one, or [`NO_JOINER`].
    pub joiner: u32,
    /// The operation slots it holds.
    pub io: Seq<u32>,
    pub id: u64,
}

impl View for Task {
    type V = TaskState;

    closed spec fn view(&self) -> TaskState {
        TaskState {
            ready: self.ready,
            finished: self.finished,
            cancel_requested: self.cancel_requested,
            output_pending: self.output_pending,
            detached: self.detached,
            joiner: self.joiner,
            io: self.io@,
            id: self.id,
        }
    }
}

/// The state a task starts in.
pub open spec fn fresh_task(id: u64) -> TaskState {
    TaskState {
        ready: false,
        finished: false,
        cancel_requested: false,
        output_pending: false,
        detached: false,
        joiner: NO_JOINER,
        io: Seq::empty(),
        id,
    }
}

impl Task {
    /// A task with a fresh id that holds no operations.
    pub fn new(ids: &mut TaskIds) -> (task: Self)
        requires
            old(ids).upcoming() < u64::MAX,
        ensures
            task@ == fresh_task(old(ids).upcoming()),
            final(ids).upcoming() == old(ids).upcoming() + 1,
    {
        let id: u64 = ids.fresh();
        Task {
            ready: false,
            finished: false,
            cancel_requested: false,
            output_pending: false,
            detached: false,
            joiner: NO_JOINER,
            io: IoVec::new(),
            id,
        }
    }

    pub fn set_ready(&mut self, ready: bool)
        ensures
            final(self)@ == (TaskState { ready, ..old(self)@ }),
    {
        self.ready = ready;
    }

    pub fn is_ready(&self) -> (ready: bool)
        ensures
            ready == self@.ready,
    {
        self.ready
    }

    pub fn is_finished(&self) -> (finished: bool)
        ensures
            finished == self@.finished,
    {
        self.finished
    }

    pub fn is_cancelled(&self) -> (cancelled: bool)
        ensures
            cancelled == self@.cancel_requested,
    {
        self.cancel_requested
    }

    pub fn joiner(&self) -> (joiner: u32)
        ensures
            joiner == self@.joiner,
    {
        self.joiner
    }

    pub fn has_output(&self) -> (pending: bool)
        ensures
            pending == self@.output_pending,
    {
        self.output_pending
    }

    pub fn is_detached(&self) -> (detached: bool)
        ensures
            detached == self@.detached,
    {
        self.detached
    }

    /// Records that nobody wants the task's output.
    pub(crate) fn detach(&mut self)
        ensures
            final(self)@ == (TaskState { detached: true, ..old(self)@ }),
    {
        self.detached = true;
    }

    pub(crate) fn set_joiner(&mut self, joiner: u32)
        ensures
            final(self)@ == (TaskState { joiner, ..old(self)@ }),
    {
        self.joiner = joiner;
    }

    /// Ends the task.
    pub(crate) fn finish(&mut self)
        ensures
            final(self)@ == (TaskState { finished: true, ..old(self)@ }),
    {
        self.finished = true;
    }

    /// Ends the task and asks for its operations to be cancelled.
    pub(crate) fn cancel(&mut self)
        ensures
            final(self)@ == (TaskState { finished: true, cancel_requested: true, ..old(self)@ }),
    {
        self.finished = true;
        self.cancel_requested = true;
    }

    /// Records that the task holds operation slot `slot`.
    pub fn hold(&mut self, slot: u32)
        ensures
            final(self)@ == (TaskState { io: old(self)@.io.push(slot), ..old(self)@ }),
    {
        self.io.push(slot);
    }

    /// Records that the task no longer holds operation slot `slot`.
    pub fn let_go(&mut self, slot: u32) -> (held: bool)
        ensures
            held == old(self)@.io.contains(slot),
            final(self)@ == (TaskState {
                io: crate::coio::op::swap_removed(old(self)@.io, slot),
                ..old(self)@
            }),
    {
        self.io.remove_value(slot)
    }

    /// Exchanges the operation slots that the task holds with those in `io`.
    pub(crate) fn swap_io(&mut self, io: &mut IoVec)
        ensures
            final(self)@ == (TaskState { io: old(io)@, ..old(self)@ }),
            final(io)@ == old(self)@.io,
    {
        core::mem::swap(io, &mut self.io);
    }

    /// The operation slots that the task holds.
    pub fn held(&self) -> (slots: Vec<u32>)
        ensures
            slots@ == self@.io,
    {
        self.io.iter().collect()
    }

    pub fn holds_nothing(&self) -> (empty: bool)
        ensures
            empty == (self@.io.len() == 0),
    {
        self.io.is_empty()
    }
}

/// Why a context cannot be used.
#[derive(Debug, Clone, Copy, PartialEq, Eq, Structural)]
pub enum TaskContextError {
    InactiveRuntime,
    SlotOutOfBounds,
    TaskRemoved,
    TaskReused,
}

impl TaskContextError {
    /// The error in words.
    pub open spec fn text(self) -> Seq<char> {
        match self {
            TaskContextError::InactiveRuntime =>
                "TaskContext used outside the runtime it belongs to"@,
            TaskContextError::SlotOutOfBounds => "TaskContext refers to an out-of-bounds slot"@,
            TaskContextError::TaskRemoved => "TaskContext refers to a removed task"@,
            TaskContextError::TaskReused =>
                "TaskContext refers to a slot reused by a different task"@,
        }
    }

    /// The error in words.
    pub fn message(&self) -> (text: &'static str)
        ensures
            text@ == self.text(),
    {
        match self {
            TaskContextError::InactiveRuntime =>
                "TaskContext used outside the runtime it belongs to",
            TaskContextError::SlotOutOfBounds => "TaskContext refers to an out-of-bounds slot",
            TaskContextError::TaskRemoved => "TaskContext refers to a removed task",
            TaskContextError::TaskReused =>
                "TaskContext refers to a slot reused by a different task",
        }
    }
}

/// The address of one task. It stays with that task: a later task in the same
/// slot has another id.
#[derive(Debug, Clone, Copy, PartialEq, Eq, Structural)]
pub struct TaskContext {
    pub task_index: u32,
    pub task_id: u64,
}

/// The number of bitmap words that `capacity` slots take.
pub open spec fn word_count(capacity: int) -> int {
    (capacity + 63) / 64
}

/// Why a context of `ctx` cannot be used on these slots, if it cannot.
pub open spec fn context_error(
    ctx: TaskContext,
    running: bool,
    slots: Seq<Option<TaskState>>,
) -> Option<TaskContextError> {
    let i = ctx.task_index as int;
    if !running {
        Some(TaskContextError::InactiveRuntime)
    } else if i / 64 >= word_count(slots.len() as int) {
        Some(TaskContextError::SlotOutOfBounds)
    } else if i >= slots.len() || slots[i] is None {
        Some(TaskContextError::TaskRemoved)
    } else if slots[i]->Some_0.id != ctx.task_id {
        Some(TaskContextError::TaskReused)
    } else {
        None
    }
}

impl TaskContext {
    pub(crate) fn new(task_index: u32, task_id: u64) -> (ctx: Self)
        ensures
            ctx == (TaskContext { task_index, task_id }),
    {
        TaskContext { task_index, task_id }
    }

    /// Whether the context's task is still there.
    pub fn validate<F, R>(&self, running: bool, tasks: &TaskSlab<F, R>) -> (valid: Result<
        (),
        TaskContextError,
    >)
        requires
            tasks.wf(),
            tasks.settled(),
        ensures
            match context_error(*self, running, tasks.slots()) {
                Some(e) => valid == Err::<(), TaskContextError>(e),
                None => valid is Ok,
            },
    {
        if !running {
            return Err(TaskContextError::InactiveRuntime);
        }
        if self.task_index as usize / 64 >= tasks.free.len() {
            return Err(TaskContextError::SlotOutOfBounds);
        }
        if bits::test(&tasks.free, self.task_index) {
            return Err(TaskContextError::TaskRemoved);
        }
        assert(tasks.claimed(self.task_index as int));
        if tasks.task(self.task_index).id != self.task_id {
            return Err(TaskContextError::TaskReused);
        }
        Ok(())
    }
}

/// A context is refused once its task is gone, also when another task with
/// another id took the slot.
pub proof fn contexts_do_not_outlive_tasks(
    ctx: TaskContext,
    running: bool,
    slots: Seq<Option<TaskState>>,
)
    requires
        ctx.task_index < slots.len() ==> slots[ctx.task_index as int] is None
            || slots[ctx.task_index as int]->Some_0.id != ctx.task_id,
    ensures
        context_error(ctx, running, slots) is Some,
{
}

/// The tasks with their futures and outputs. A task's output slot holds its
/// output until it is taken or the task is removed.
pub struct TaskSlab<F, R> {
    tasks: Vec<Option<Task>>,
    futures: Vec<Option<F>>,
    outputs: Vec<Option<R>>,
    free: Vec<u64>,
}

impl<F, R> TaskSlab<F, R> {
    /// The state of each slot's task.
    pub closed spec fn slots(&self) -> Seq<Option<TaskState>> {
        self.tasks@.map_values(
            |t: Option<Task>|
                match t {
                    Some(t) => Some(t@),
                    None => None,
                },
        )
    }

    pub closed spec fn future_slots(&self) -> Seq<Option<F>> {
        self.futures@
    }

    pub closed spec fn output_slots(&self) -> Seq<Option<R>> {
        self.outputs@
    }

    /// Whether slot `i` was claimed.
    pub closed spec fn claimed(&self, i: int) -> bool {
        0 <= i < self.free@.len() * 64 && !bits::bit_at(self.free@, i)
    }

    /// A task is in a claimed slot and has a future, and it has an output
    /// exactly when it is marked so.
    pub closed spec fn wf(&self) -> bool {
        let n = self.tasks@.len() as int;
        &&& n <= u32::MAX
        &&& self.futures@.len() == n
        &&& self.outputs@.len() == n
        &&& self.free@.len() == word_count(n)
        &&& forall|i: int| n <= i < self.free@.len() * 64 ==> #[trigger] bits::bit_at(self.free@, i)
        &&& forall|i: int|
            0 <= i < n ==> {
                &&& (#[trigger] self.tasks@[i]) is Some ==> !bits::bit_at(self.free@, i)
                &&& self.tasks@[i] is Some <==> self.futures@[i] is Some
                &&& self.outputs@[i] is Some <==> self.tasks@[i] is Some
                    && self.tasks@[i]->Some_0.output_pending
            }
    }

    /// Every claimed slot holds a task.
    pub open spec fn settled(&self) -> bool {
        forall|i: int|
            #![trigger self.slots()[i]]
            #![trigger self.claimed(i)]
            0 <= i < self.slots().len() && self.claimed(i) ==> self.slots()[i] is Some
    }

    /// What holds of every well-formed slab.
    pub proof fn wf_means(&self)
        requires
            self.wf(),
        ensures
            self.slots().len() <= u32::MAX,
            self.future_slots().len() == self.slots().len(),
            self.output_slots().len() == self.slots().len(),
            forall|i: int| #[trigger] self.claimed(i) ==> 0 <= i < self.slots().len(),
            forall|i: int|
                0 <= i < self.slots().len() ==> {
                    &&& (#[trigger] self.slots()[i]) is Some ==> self.claimed(i)
                    &&& self.slots()[i] is Some <==> self.future_slots()[i] is Some
                    &&& self.output_slots()[i] is Some <==> self.slots()[i] is Some
                        && self.slots()[i]->Some_0.output_pending
                },
    {
    }

    /// A slab of `capacity` free slots.
    pub fn new(capacity: u32) -> (slab: Self)
        ensures
            slab.wf(),
            slab.settled(),
            slab.slots() == Seq::new(capacity as nat, |i: int| None::<TaskState>),
            slab.future_slots() == Seq::new(capacity as nat, |i: int| None::<F>),
            slab.output_slots() == Seq::new(capacity as nat, |i: int| None::<R>),
            forall|i: int| !#[trigger] slab.claimed(i),
            slab.words() == Seq::new(word_count(capacity as int) as nat, |i: int| u64::MAX),
    {
        let mut tasks: Vec<Option<Task>> = Vec::new();
        let mut futures: Vec<Option<F>> = Vec::new();
        let mut outputs: Vec<Option<R>> = Vec::new();
        let mut i: u32 = 0;
        while i < capacity
            invariant
                i <= capacity,
                tasks@ == Seq::new(i as nat, |k: int| None::<Task>),
                futures@ == Seq::new(i as nat, |k: int| None::<F>),
                outputs@ == Seq::new(i as nat, |k: int| None::<R>),
            decreases capacity - i,
        {
            tasks.push(None);
            futures.push(None);
            outputs.push(None);
            i = i + 1;
            assert(tasks@ =~= Seq::new(i as nat, |k: int| None::<Task>));
            assert(futures@ =~= Seq::new(i as nat, |k: int| None::<F>));
            assert(outputs@ =~= Seq::new(i as nat, |k: int| None::<R>));
        }
        let words: u64 = (capacity as u64 + 63) / 64;
        let mut free: Vec<u64> = Vec::new();
        let mut k: u64 = 0;
        while k < words
            invariant
                k <= words,
                free@ == Seq::new(k as nat, |j: int| u64::MAX),
            decreases words - k,
        {
            free.push(u64::MAX);
            k = k + 1;
            assert(free@ =~= Seq::new(k as nat, |j: int| u64::MAX));
        }
        let slab: TaskSlab<F, R> = TaskSlab { tasks, futures, outputs, free };
        proof {
            bits::lemma_filled(slab.free@, u64::MAX);
            assert(slab.slots() =~= Seq::new(capacity as nat, |i: int| None::<TaskState>));
        }
        slab
    }

    /// The bitmap of free slots.
    pub closed spec fn words(&self) -> Seq<u64> {
        self.free@
    }

    pub fn capacity(&self) -> (n: usize)
        ensures
            n == self.slots().len(),
    {
        self.tasks.len()
    }

    /// The bitmap of free slots.
    pub fn free_words(&self) -> (words: &Vec<u64>)
        ensures
            words@ == self.words(),
    {
        &self.free
    }

    /// Whether slot `index` was claimed.
    pub fn is_occupied(&self, index: u32) -> (occupied: bool)
        ensures
            occupied == self.claimed(index as int),
    {
        let word: usize = index as usize / 64;
        word < self.free.len() && !bits::test(&self.free, index)
    }

    /// Claims the lowest free slot. It holds no task yet.
    pub fn reserve(&mut self) -> (index: Option<u32>)
        requires
            old(self).wf(),
        ensures
            final(self).wf(),
            final(self).slots() == old(self).slots(),
            final(self).future_slots() == old(self).future_slots(),
            final(self).output_slots() == old(self).output_slots(),
            match index {
                Some(i) => {
                    &&& i < old(self).slots().len()
                    &&& !old(self).claimed(i as int)
                    &&& forall|j: int| 0 <= j < i ==> #[trigger] old(self).claimed(j)
                    &&& forall|j: int|
                        #![trigger final(self).claimed(j)]
                        #![trigger old(self).claimed(j)]
                        final(self).claimed(j) == (j == i || old(self).claimed(j))
                },
                None => {
                    &&& forall|j: int|
                        0 <= j < old(self).slots().len() ==> #[trigger] old(self).claimed(j)
                    &&& *final(self) == *old(self)
                },
            },
    {
        match bits::first_set(&self.free) {
            Some(index) => {
                if index as usize >= self.tasks.len() || index == NO_JOINER {
                    assert forall|j: int| 0 <= j < self.slots().len() implies #[trigger] old(
                        self,
                    ).claimed(j) by {
                        assert(!bits::bit_at(self.free@, j));
                    }
                    return None;
                }
                proof {
                    assert forall|j: int| 0 <= j < index implies #[trigger] old(self).claimed(
                        j,
                    ) by {
                        assert(!bits::bit_at(self.free@, j));
                    }
                }
                bits::clear(&mut self.free, index);
                proof {
                    assert forall|j: int|
                        #![trigger self.claimed(j)]
                        #![trigger old(self).claimed(j)]
                        self.claimed(j) == (j == index as int || old(self).claimed(j)) by {
                        assert(bits::bit_at(self.free@, j) == if j == index as int {
                            false
                        } else {
                            bits::bit_at(old(self).free@, j)
                        });
                    }
                }
                Some(index)
            },
            None => {
                assert forall|j: int| 0 <= j < self.slots().len() implies #[trigger] old(
                    self,
                ).claimed(j) by {
                    assert(!bits::bit_at(self.free@, j));
                }
                None
            },
        }
    }

    /// Claims the lowest free slot for `task` and the future that `make_fut`
    /// makes of its context.
    pub fn insert<S: FnOnce(TaskContext) -> F>(&mut self, task: Task, make_fut: S) -> (index:
        Option<u32>)
        requires
            old(self).wf(),
            old(self).settled(),
            !task@.output_pending,
            forall|ctx: TaskContext| make_fut.requires((ctx,)),
        ensures
            final(self).wf(),
            final(self).settled(),
            match index {
                Some(i) => {
                    &&& i < old(self).slots().len()
                    &&& old(self).slots()[i as int] is None
                    &&& forall|j: int| 0 <= j < i ==> (#[trigger] old(self).slots()[j]) is Some
                    &&& final(self).slots() == old(self).slots().update(i as int, Some(task@))
                    &&& final(self).future_slots()[i as int] matches Some(f) && make_fut.ensures(
                        (TaskContext { task_index: i, task_id: task@.id },),
                        f,
                    )
                    &&& final(self).future_slots() == old(self).future_slots().update(
                        i as int,
                        final(self).future_slots()[i as int],
                    )
                    &&& final(self).output_slots() == old(self).output_slots()
                },
                None => {
                    &&& forall|j: int|
                        0 <= j < old(self).slots().len() ==> (#[trigger] old(self).slots()[j])
                            is Some
                    &&& *final(self) == *old(self)
                },
            },
    {
        proof {
            self.wf_means();
        }
        match self.reserve() {
            Some(index) => {
                let ctx: TaskContext = TaskContext::new(index, task.id);
                let ghost state = task@;
                let ghost before = self.slots();
                self.tasks.set(index as usize, Some(task));
                self.futures.set(index as usize, Some(make_fut(ctx)));
                proof {
                    assert(self.slots() =~= before.update(index as int, Some(state)));
                    assert forall|j: int|
                        0 <= j < self.slots().len() && self.claimed(j) implies self.slots()[j]
                        is Some by {
                        if j != index as int {
                            assert(old(self).claimed(j));
                            assert(old(self).slots()[j] is Some);
                        }
                    }
                    assert forall|j: int| 0 <= j < index implies (#[trigger] old(self).slots()[j])
                        is Some by {
                        assert(old(self).claimed(j));
                    }
                }
                Some(index)
            },
            None => {
                assert forall|j: int| 0 <= j < old(self).slots().len() implies (
                #[trigger] old(self).slots()[j]) is Some by {
                    assert(old(self).claimed(j));
                }
                None
            },
        }
    }

    /// The task in slot `index`.
    pub fn task(&self, index: u32) -> (task: &Task)
        requires
            index < self.slots().len(),
            self.slots()[index as int] is Some,
        ensures
            task@ == self.slots()[index as int]->Some_0,
    {
        self.tasks[index as usize].as_ref().unwrap()
    }

    /// The task in slot `index`, to change.
    pub fn task_mut(&mut self, index: u32) -> (task: &mut Task)
        requires
            old(self).wf(),
            index < old(self).slots().len(),
            old(self).slots()[index as int] is Some,
        ensures
            task@ == old(self).slots()[index as int]->Some_0,
            final(self).slots() == old(self).slots().update(index as int, Some(final(task)@)),
            final(self).future_slots() == old(self).future_slots(),
            final(self).output_slots() == old(self).output_slots(),
            forall|i: int|
                #![trigger final(self).claimed(i)]
                #![trigger old(self).claimed(i)]
                final(self).claimed(i) == old(self).claimed(i),
            final(task)@.output_pending == task@.output_pending ==> final(self).wf(),
    {
        match &mut self.tasks[index as usize] {
            Some(task) => task,
            None => vstd::pervasive::unreached(),
        }
    }

    /// The future in slot `index`, to poll.
    pub fn future_mut(&mut self, index: u32) -> (future: &mut F)
        requires
            old(self).wf(),
            index < old(self).slots().len(),
            old(self).slots()[index as int] is Some,
        ensures
            Some(*future) == old(self).future_slots()[index as int],
            final(self).slots() == old(self).slots(),
            final(self).future_slots() == old(self).future_slots().update(
                index as int,
                Some(*final(future)),
            ),
            final(self).output_slots() == old(self).output_slots(),
            forall|i: int|
                #![trigger final(self).claimed(i)]
                #![trigger old(self).claimed(i)]
                final(self).claimed(i) == old(self).claimed(i),
            final(self).wf(),
            old(self).settled() ==> final(self).settled(),
    {
        match &mut self.futures[index as usize] {
            Some(future) => future,
            None => vstd::pervasive::unreached(),
        }
    }

    /// The context of the task in slot `index`.
    pub fn context_for(&self, index: u32) -> (ctx: TaskContext)
        requires
            index < self.slots().len(),
            self.slots()[index as int] is Some,
        ensures
            ctx == (TaskContext {
                task_index: index,
                task_id: self.slots()[index as int]->Some_0.id,
            }),
    {
        TaskContext::new(index, self.task(index).id)
    }

    /// Makes `value` the output of the task in slot `index`.
    pub fn init_output(&mut self, index: u32, value: R)
        requires
            old(self).wf(),
            index < old(self).slots().len(),
            old(self).slots()[index as int] matches Some(t) && !t.output_pending,
        ensures
            final(self).wf(),
            final(self).slots() == old(self).slots().update(
                index as int,
                Some(
                    TaskState {
                        output_pending: true,
                        ..old(self).slots()[index as int]->Some_0
                    },
                ),
            ),
            final(self).output_slots() == old(self).output_slots().update(
                index as int,
                Some(value),
            ),
            final(self).future_slots() == old(self).future_slots(),
            forall|i: int|
                #![trigger final(self).claimed(i)]
                #![trigger old(self).claimed(i)]
                final(self).claimed(i) == old(self).claimed(i),
            old(self).settled() ==> final(self).settled(),
    {
        let ghost state = self.slots()[index as int]->Some_0;
        self.outputs.set(index as usize, Some(value));
        match &mut self.tasks[index as usize] {
            Some(task) => {
                task.output_pending = true;
            },
            None => {},
        }
        assert(self.slots() =~= old(self).slots().update(
            index as int,
            Some(TaskState { output_pending: true, ..state }),
        ));
    }

    /// Takes the output of the task in slot `index`.
    pub fn take_output(&mut self, index: u32) -> (value: R)
        requires
            old(self).wf(),
            index < old(self).slots().len(),
            old(self).slots()[index as int] matches Some(t) && t.output_pending,
        ensures
            final(self).wf(),
            Some(value) == old(self).output_slots()[index as int],
            final(self).slots() == old(self).slots().update(
                index as int,
                Some(
                    TaskState {
                        output_pending: false,
                        ..old(self).slots()[index as int]->Some_0
                    },
                ),
            ),
            final(self).output_slots() == old(self).output_slots().update(
                index as int,
                None::<R>,
            ),
            final(self).future_slots() == old(self).future_slots(),
            forall|i: int|
                #![trigger final(self).claimed(i)]
                #![trigger old(self).claimed(i)]
                final(self).claimed(i) == old(self).claimed(i),
            old(self).settled() ==> final(self).settled(),
    {
        let ghost state = self.slots()[index as int]->Some_0;
        let value: Option<R> = self.outputs[index as usize].take();
        match &mut self.tasks[index as usize] {
            Some(task) => {
                task.output_pending = false;
            },
            None => {},
        }
        assert(self.slots() =~= old(self).slots().update(
            index as int,
            Some(TaskState { output_pending: false, ..state }),
        ));
        value.unwrap()
    }

    /// Removes the task in slot `index` with its future and its output, if it
    /// is still there, and frees the slot.
    pub fn remove(&mut self, index: u32) -> (task: Task)
        requires
            old(self).wf(),
            index < old(self).slots().len(),
            old(self).slots()[index as int] is Some,
        ensures
            final(self).wf(),
            Some(task@) == old(self).slots()[index as int],
            final(self).slots() == old(self).slots().update(index as int, None::<TaskState>),
            final(self).future_slots() == old(self).future_slots().update(
                index as int,
                None::<F>,
            ),
            final(self).output_slots() == old(self).output_slots().update(
                index as int,
                None::<R>,
            ),
            forall|i: int|
                #![trigger final(self).claimed(i)]
                #![trigger old(self).claimed(i)]
                final(self).claimed(i) == (i != index && old(self).claimed(i)),
            old(self).settled() ==> final(self).settled(),
    {
        let task: Option<Task> = self.tasks[index as usize].take();
        self.futures.set(index as usize, None);
        self.outputs.set(index as usize, None);
        bits::set(&mut self.free, index);
        proof {
            assert forall|i: int|
                #![trigger self.claimed(i)]
                #![trigger old(self).claimed(i)]
                self.claimed(i) == (i != index as int && old(self).claimed(i)) by {
                assert(bits::bit_at(self.free@, i) == if i == index as int {
                    true
                } else {
                    bits::bit_at(old(self).free@, i)
                });
            }
            assert(self.slots() =~= old(self).slots().update(index as int, None::<TaskState>));
        }
        task.unwrap()
    }

    /// Drops every output that is left.
    pub fn drop_outputs_raw(&mut self)
        requires
            old(self).wf(),
        ensures
            final(self).wf(),
            final(self).output_slots() == Seq::new(old(self).slots().len(), |i: int| None::<R>),
            final(self).future_slots() == old(self).future_slots(),
            final(self).slots() == old(self).slots().map_values(
                |t: Option<TaskState>|
                    match t {
                        Some(t) => Some(TaskState { output_pending: false, ..t }),
                        None => None,
                    },
            ),
            forall|i: int|
                #![trigger final(self).claimed(i)]
                #![trigger old(self).claimed(i)]
                final(self).claimed(i) == old(self).claimed(i),
    {
        let mut k: usize = 0;
        let n: usize = self.tasks.len();
        while k < n
            invariant
                k <= n == self.tasks@.len(),
                n <= u32::MAX,
                self.wf(),
                forall|i: int|
                    #![trigger self.claimed(i)]
                    #![trigger old(self).claimed(i)]
                    self.claimed(i) == old(self).claimed(i),
                self.futures@ == old(self).futures@,
                self.slots().len() == old(self).slots().len(),
                forall|i: int| 0 <= i < k ==> (#[trigger] self.outputs@[i]) is None,
                forall|i: int|
                    0 <= i < n ==> (#[trigger] self.slots()[i]) == if i < k {
                        match old(self).slots()[i] {
                            Some(t) => Some(TaskState { output_pending: false, ..t }),
                            None => None,
                        }
                    } else {
                        old(self).slots()[i]
                    },
            decreases n - k,
        {
            let ghost before = self.slots();
            if self.tasks[k].is_some() && self.task(k as u32).output_pending {
                let _ = self.take_output(k as u32);
            }
            assert(self.outputs@[k as int] is None);
            assert(self.slots() =~= before.update(k as int, self.slots()[k as int]));
            k = k + 1;
        }
        assert(self.outputs@ =~= Seq::new(old(self).slots().len(), |i: int| None::<R>));
        assert(self.slots() =~= old(self).slots().map_values(
            |t: Option<TaskState>|
                match t {
                    Some(t) => Some(TaskState { output_pending: false, ..t }),
                    None => None,
                },
        ));
    }
}

/// A task whose slot was freed and taken again is not found under its old
/// context, whatever the newcomer does, as long as ids differ.
pub proof fn slot_reuse_is_noticed(ctx: TaskContext, slots: Seq<Option<TaskState>>, newcomer: TaskState)
    requires
        ctx.task_index < slots.len(),
        newcomer.id != ctx.task_id,
    ensures
        context_error(
            ctx,
            true,
            slots.update(ctx.task_index as int, None).update(
                ctx.task_index as int,
                Some(newcomer),
            ),
        ) == Some(TaskContextError::TaskReused),
{
}

/// A context is accepted exactly while the runtime runs and the task it was
/// made for is in its slot. What is wrong with it otherwise is told apart: the
/// runtime does not run, the slot lies beyond the slots rounded up to 64, no
/// task is there, or another one is.
pub proof fn context_is_judged_by_its_task(
    ctx: TaskContext,
    running: bool,
    slots: Seq<Option<TaskState>>,
)
    ensures
        ({
            let i = ctx.task_index as int;
            let there = i < slots.len() && slots[i] is Some;
            let error = context_error(ctx, running, slots);
            &&& error is None <==> running && there && slots[i]->Some_0.id == ctx.task_id
            &&& error == Some(TaskContextError::InactiveRuntime) <==> !running
            &&& error == Some(TaskContextError::TaskReused) <==> running && there
                && slots[i]->Some_0.id != ctx.task_id
            &&& error == Some(TaskContextError::TaskRemoved) <==> running && !there && i
                < slots.len() + (64 - slots.len() as int % 64) % 64
        }),
{
}

/// A task begins unpolled and unfinished, with no operation, no output and
/// nobody waiting for it.
pub proof fn fresh_task_is_blank(id: u64)
    ensures
        ({
            let t = fresh_task(id);
            &&& t.id == id && t.io.len() == 0 && t.joiner == 0xffff_ffff
            &&& !t.ready && !t.finished && !t.cancel_requested && !t.output_pending && !t.detached
        }),
{
}

/// Each error says in its own words what is wrong with a context.
pub proof fn context_errors_in_words(e: TaskContextError)
    ensures
        e is InactiveRuntime ==> e.text() == "TaskContext used outside the runtime it belongs to"@,
        e is SlotOutOfBounds ==> e.text() == "TaskContext refers to an out-of-bounds slot"@,
        e is TaskRemoved ==> e.text() == "TaskContext refers to a removed task"@,
        e is TaskReused ==> e.text() == "TaskContext refers to a slot reused by a different task"@,
{
}

} // verus!
