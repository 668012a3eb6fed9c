//! Tasks with their futures, in a slab of fixed size.

use vstd::prelude::*;

use crate::coio::arena::Arena;
use crate::coio::arena::ArenaAlloc;
use crate::coio::arena::Block;
use crate::coio::bits;
use crate::coio::task;
use crate::coiote::io_state::IoState;
use crate::coiote::io_state::INLINE_SLOTS;
use crate::coiote::slab::Slab;

verus! {

/// A task: whether it is queued to be polled, its operations, and the memory
/// that these use.
pub struct Task {
    pub ready: bool,
    pub io: IoState,
    pub arena: Arena,
    /// The blocks of the operations in flight.
    pub inflight: Slab<ArenaAlloc>,
}

impl Task {
    /// The parts are well formed.
    pub open spec fn wf(&self) -> bool {
        &&& self.io.wf()
        &&& self.arena.wf()
        &&& self.inflight.wf()
    }

    /// Nothing was ever in flight, and the arena has all of its `capacity`
    /// bytes.
    pub open spec fn fresh(&self, capacity: u32) -> bool {
        &&& self.arena.limit() == capacity
        &&& self.arena.top() == 0
        &&& self.arena.blocks() == Seq::<Block>::empty()
        &&& !self.io.on_heap()
        &&& forall|i: int| !#[trigger] self.io.in_flight(i)
        &&& forall|i: int| !#[trigger] self.io.done(i)
        &&& self.io.results() == Seq::new(64, |i: int| 0i32)
        &&& self.io.blocks() == Seq::<Option<ArenaAlloc>>::empty()
        &&& self.io.room() == INLINE_SLOTS
        &&& self.inflight.values() == Seq::<Option<ArenaAlloc>>::empty()
        &&& self.inflight.freed() == Seq::<u32>::empty()
        &&& self.inflight.room() == 0
        &&& forall|i: int| !#[trigger] self.inflight.has(i)
    }

    /// A task with an arena of `capacity` bytes and nothing in flight.
    pub fn new(capacity: u32) -> (task: Self)
        ensures
            task.wf(),
            !task.ready,
            task.fresh(capacity),
    {
        Task {
            ready: false,
            io: IoState::new(),
            arena: Arena::new(capacity),
            inflight: Slab::new(),
        }
    }
}

/// Tasks and futures by index.
pub struct TaskSlab<F> {
    tasks: Vec<Option<Task>>,
    futures: Vec<Option<F>>,
    free: Vec<u64>,
}

impl<F> TaskSlab<F> {
    pub closed spec fn task_slots(&self) -> Seq<Option<Task>> {
        self.tasks@
    }

    pub closed spec fn future_slots(&self) -> Seq<Option<F>> {
        self.futures@
    }

    /// Whether slot `i` was claimed.
    pub closed spec fn claimed(&self, i: int) -> bool {
        0 <= i < self.free@.len() * 64 && !bits::bit_at(self.free@, i)
    }

    /// Only slots within the capacity are claimed.
    pub closed spec fn wf(&self) -> bool {
        let n = self.tasks@.len() as int;
        &&& n <= u32::MAX
        &&& self.futures@.len() == n
        &&& self.free@.len() == task::word_count(n)
        &&& forall|i: int| n <= i < self.free@.len() * 64 ==> #[trigger] bits::bit_at(self.free@, i)
    }

    /// What holds of every well-formed slab.
    pub proof fn wf_means(&self)
        requires
            self.wf(),
        ensures
            self.task_slots().len() <= u32::MAX,
            self.future_slots().len() == self.task_slots().len(),
            forall|i: int| #[trigger] self.claimed(i) ==> 0 <= i < self.task_slots().len(),
    {
    }

    /// Whether slot `i` holds a task and its future.
    pub open spec fn filled(&self, i: int) -> bool {
        &&& self.claimed(i)
        &&& 0 <= i < self.task_slots().len()
        &&& self.task_slots()[i] is Some
        &&& self.future_slots()[i] is Some
    }

    /// The same slots claimed.
    pub open spec fn same_claims(&self, other: &Self) -> bool {
        forall|i: int|
            #![trigger self.claimed(i)]
            #![trigger other.claimed(i)]
            self.claimed(i) == other.claimed(i)
    }

    /// A slab of `capacity` free slots.
    pub fn new(capacity: u32) -> (slab: Self)
        ensures
            slab.wf(),
            slab.task_slots() == Seq::new(capacity as nat, |i: int| None::<Task>),
            slab.future_slots() == Seq::new(capacity as nat, |i: int| None::<F>),
            forall|i: int| !#[trigger] slab.claimed(i),
    {
        let mut tasks: Vec<Option<Task>> = Vec::new();
        let mut futures: Vec<Option<F>> = Vec::new();
        let mut i: u32 = 0;
        while i < capacity
            invariant
                i <= capacity,
                tasks@ == Seq::new(i as nat, |k: int| None::<Task>),
                futures@ == Seq::new(i as nat, |k: int| None::<F>),
            decreases capacity - i,
        {
            tasks.push(None);
            futures.push(None);
            i = i + 1;
            assert(tasks@ =~= Seq::new(i as nat, |k: int| None::<Task>));
            assert(futures@ =~= Seq::new(i as nat, |k: int| None::<F>));
        }
        let words: u64 = (capacity as u64 + 63) / 64;
        let mut free: Vec<u64> = Vec::new();
        let mut k: u64 = 0;
        while k < words
            invariant
                k <= words,
                free@ == Seq::new(k as nat, |j: int| u64::MAX),
            decreases words - k,
        {
            free.push(u64::MAX);
            k = k + 1;
            assert(free@ =~= Seq::new(k as nat, |j: int| u64::MAX));
        }
        let slab: TaskSlab<F> = TaskSlab { tasks, futures, free };
        proof {
            bits::lemma_filled(slab.free@, u64::MAX);
        }
        slab
    }

    /// Claims the lowest free slot. It is to be filled at once.
    pub fn insert_vacant(&mut self) -> (index: Option<u32>)
        requires
            old(self).wf(),
        ensures
            final(self).wf(),
            final(self).task_slots() == old(self).task_slots(),
            final(self).future_slots() == old(self).future_slots(),
            match index {
                Some(i) => {
                    &&& i < old(self).task_slots().len()
                    &&& !old(self).claimed(i as int)
                    &&& forall|j: int| 0 <= j < i ==> #[trigger] old(self).claimed(j)
                    &&& forall|j: int|
                        #![trigger final(self).claimed(j)]
                        #![trigger old(self).claimed(j)]
                        final(self).claimed(j) == (j == i || old(self).claimed(j))
                },
                None => {
                    &&& forall|j: int|
                        0 <= j < old(self).task_slots().len() ==> #[trigger] old(self).claimed(j)
                    &&& *final(self) == *old(self)
                },
            },
    {
        match bits::first_set(&self.free) {
            Some(index) => {
                if index as usize >= self.tasks.len() {
                    assert forall|j: int| 0 <= j < self.tasks@.len() implies #[trigger] old(
                        self,
                    ).claimed(j) by {
                        assert(!bits::bit_at(self.free@, j));
                    }
                    return None;
                }
                proof {
                    assert forall|j: int| 0 <= j < index implies #[trigger] old(self).claimed(
                        j,
                    ) by {
                        assert(!bits::bit_at(self.free@, j));
                    }
                }
                bits::clear(&mut self.free, index);
                proof {
                    assert forall|j: int|
                        #![trigger self.claimed(j)]
                        #![trigger old(self).claimed(j)]
                        self.claimed(j) == (j == index as int || old(self).claimed(j)) by {
                        assert(bits::bit_at(self.free@, j) == if j == index as int {
                            false
                        } else {
                            bits::bit_at(old(self).free@, j)
                        });
                    }
                }
                Some(index)
            },
            None => {
                assert forall|j: int| 0 <= j < self.tasks@.len() implies #[trigger] old(
                    self,
                ).claimed(j) by {
                    assert(!bits::bit_at(self.free@, j));
                }
                None
            },
        }
    }

    /// Puts `task` into slot `index`.
    pub fn init_task(&mut self, index: u32, task: Task)
        requires
            old(self).wf(),
            index < old(self).task_slots().len(),
        ensures
            final(self).wf(),
            final(self).task_slots() == old(self).task_slots().update(index as int, Some(task)),
            final(self).future_slots() == old(self).future_slots(),
            final(self).same_claims(&*old(self)),
    {
        self.tasks.set(index as usize, Some(task));
    }

    /// Puts `future` into slot `index`.
    pub fn init_future(&mut self, index: u32, future: F)
        requires
            old(self).wf(),
            index < old(self).task_slots().len(),
        ensures
            final(self).wf(),
            final(self).task_slots() == old(self).task_slots(),
            final(self).future_slots() == old(self).future_slots().update(
                index as int,
                Some(future),
            ),
            final(self).same_claims(&*old(self)),
    {
        self.futures.set(index as usize, Some(future));
    }

    /// Whether slot `index` was claimed.
    pub fn is_occupied(&self, index: u32) -> (occupied: bool)
        ensures
            occupied == self.claimed(index as int),
    {
        let word: usize = index as usize / 64;
        word < self.free.len() && !bits::test(&self.free, index)
    }

    /// The task in slot `index`, to change.
    pub fn task_mut(&mut self, index: u32) -> (task: &mut Task)
        requires
            old(self).wf(),
            old(self).filled(index as int),
        ensures
            Some(*task) == old(self).task_slots()[index as int],
            final(self).task_slots() == old(self).task_slots().update(
                index as int,
                Some(*final(task)),
            ),
            final(self).future_slots() == old(self).future_slots(),
            final(self).same_claims(&*old(self)),
            final(self).wf(),
    {
        match &mut self.tasks[index as usize] {
            Some(task) => task,
            None => vstd::pervasive::unreached(),
        }
    }

    /// The future in slot `index`, to poll.
    pub fn future_mut(&mut self, index: u32) -> (future: &mut F)
        requires
            old(self).wf(),
            old(self).filled(index as int),
        ensures
            Some(*future) == old(self).future_slots()[index as int],
            final(self).future_slots() == old(self).future_slots().update(
                index as int,
                Some(*final(future)),
            ),
            final(self).task_slots() == old(self).task_slots(),
            final(self).same_claims(&*old(self)),
            final(self).wf(),
    {
        match &mut self.futures[index as usize] {
            Some(future) => future,
            None => vstd::pervasive::unreached(),
        }
    }

    /// Takes the task and the future out of slot `index`, and frees it.
    pub fn remove(&mut self, index: u32) -> (both: (Task, F))
        requires
            old(self).wf(),
            old(self).filled(index as int),
        ensures
            final(self).wf(),
            Some(both.0) == old(self).task_slots()[index as int],
            Some(both.1) == old(self).future_slots()[index as int],
            final(self).task_slots() == old(self).task_slots().update(index as int, None),
            final(self).future_slots() == old(self).future_slots().update(index as int, None),
            forall|j: int|
                #![trigger final(self).claimed(j)]
                #![trigger old(self).claimed(j)]
                final(self).claimed(j) == (j != index && old(self).claimed(j)),
    {
        bits::set(&mut self.free, index);
        let task: Option<Task> = self.tasks[index as usize].take();
        let future: Option<F> = self.futures[index as usize].take();
        proof {
            assert forall|j: int|
                #![trigger self.claimed(j)]
                #![trigger old(self).claimed(j)]
                self.claimed(j) == (j != index as int && old(self).claimed(j)) by {
                assert(bits::bit_at(self.free@, j) == if j == index as int {
                    true
                } else {
                    bits::bit_at(old(self).free@, j)
                });
            }
        }
        (task.unwrap(), future.unwrap())
    }
}

/// A fresh task has nothing in flight, no results and no buffers, and all of
/// its arena.
pub proof fn fresh_task_has_its_arena(task: Task, capacity: u32, i: int)
    requires
        task.fresh(capacity),
    ensures
        task.arena.limit() == capacity,
        task.arena.top() == 0,
        task.arena.blocks().len() == 0,
        !task.io.in_flight(i),
        !task.io.done(i),
        !task.io.on_heap(),
        task.io.results().len() == 64,
        0 <= i < 64 ==> task.io.results()[i] == 0,
        task.io.blocks().len() == 0,
        !task.inflight.has(i),
        task.inflight.values().len() == 0 && task.inflight.freed().len() == 0,
{
}

/// Slabs with the same claims agree on every slot.
pub proof fn same_claims_agree<F>(a: TaskSlab<F>, b: TaskSlab<F>, i: int)
    requires
        a.same_claims(&b),
    ensures
        a.claimed(i) == b.claimed(i),
{
}

} // verus!
