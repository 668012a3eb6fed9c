//! What the runtime does between polling futures and waiting on the ring.

use vstd::prelude::*;

use crate::coio::arena;
use crate::coio::arena::Arena;
use crate::coio::arena::ArenaAlloc;
use crate::coio::arena::Block;
use crate::coio::op;
use crate::coio::op::IoUserData;
use crate::coiote::io_state;
use crate::coiote::task::Task;
use crate::coiote::task::TaskSlab;

verus! {

/// The size of a task's arena.
pub const TASK_ARENA: u32 = 4096;

/// Gives way to the other tasks once.
pub struct Yield {
    polled: bool,
}

/// A future that lets the other tasks run before its own goes on.
pub fn yield_now() -> (y: Yield)
    ensures
        !y.was_polled(),
{
    Yield { polled: false }
}

impl Yield {
    pub closed spec fn was_polled(&self) -> bool {
        self.polled
    }

    /// Whether the future is done: the second time it is polled. The first
    /// time its task is to be woken.
    pub fn poll(&mut self) -> (done: bool)
        ensures
            done == old(self).was_polled(),
            final(self).was_polled(),
    {
        if self.polled {
            true
        } else {
            self.polled = true;
            false
        }
    }
}

/// Whether `s` lists `x`.
fn lists(s: &Vec<u32>, x: u32) -> (found: bool)
    ensures
        found == s@.contains(x),
{
    let mut i: usize = 0;
    while i < s.len()
        invariant
            i <= s@.len(),
            forall|k: int| 0 <= k < i ==> s@[k] != x,
        decreases s@.len() - i,
    {
        if s[i] == x {
            assert(s@.contains(x));
            return true;
        }
        i = i + 1;
    }
    false
}

/// `ready` with the tasks of `woken` appended that are not in it yet.
pub open spec fn with_woken(ready: Seq<u32>, woken: Seq<u32>) -> Seq<u32>
    decreases woken.len(),
{
    if woken.len() == 0 {
        ready
    } else {
        let r = with_woken(ready, woken.drop_last());
        if r.contains(woken.last()) {
            r
        } else {
            r.push(woken.last())
        }
    }
}

/// Waking never queues a task twice, and loses none.
pub proof fn waking_queues_each_once(ready: Seq<u32>, woken: Seq<u32>)
    requires
        ready.no_duplicates(),
    ensures
        with_woken(ready, woken).no_duplicates(),
        forall|x: u32|
            #![trigger with_woken(ready, woken).contains(x)]
            with_woken(ready, woken).contains(x) <==> ready.contains(x) || woken.contains(x),
    decreases woken.len(),
{
    if woken.len() > 0 {
        let head = woken.drop_last();
        let last = woken.last();
        waking_queues_each_once(ready, head);
        let r = with_woken(ready, head);
        let all = with_woken(ready, woken);
        assert(woken[woken.len() - 1] == last);
        assert forall|x: u32|
            #![trigger all.contains(x)]
            all.contains(x) <==> ready.contains(x) || woken.contains(x) by {
            if woken.contains(x) && x != last {
                let k = woken.index_of(x);
                assert(head[k] == x);
                assert(head.contains(x));
            }
            if head.contains(x) {
                let k = head.index_of(x);
                assert(woken[k] == x);
            }
            if !r.contains(last) {
                assert(all[r.len() as int] == last);
                if all.contains(x) && x != last {
                    let k = all.index_of(x);
                    assert(r[k] == x);
                    assert(r.contains(x));
                }
                if r.contains(x) {
                    let k = r.index_of(x);
                    assert(all[k] == x);
                }
            }
        }
        if !r.contains(last) {
            assert forall|a: int, b: int|
                0 <= a < all.len() && 0 <= b < all.len() && a != b implies all[a] != all[b] by {
                if a < r.len() {
                    assert(r.contains(r[a]));
                }
                if b < r.len() {
                    assert(r.contains(r[b]));
                }
            }
        }
    }
}

/// Tasks, and the queue of those to poll.
pub struct Runtime<F> {
    tasks: TaskSlab<F>,
    ready: Vec<u32>,
}

impl<F> Runtime<F> {
    pub closed spec fn slab(&self) -> TaskSlab<F> {
        self.tasks
    }

    /// The tasks to poll, in order.
    pub closed spec fn queue(&self) -> Seq<u32> {
        self.ready@
    }

    /// Every claimed slot holds a well-formed task.
    pub open spec fn wf(&self) -> bool {
        &&& self.slab().wf()
        &&& forall|i: int| #[trigger]
            self.slab().claimed(i) ==> self.slab().filled(i)
                && self.slab().task_slots()[i]->Some_0.wf()
    }

    pub fn new(task_capacity: u32) -> (rt: Self)
        ensures
            rt.wf(),
            rt.queue() == Seq::<u32>::empty(),
            rt.slab().task_slots() == Seq::new(task_capacity as nat, |i: int| None::<Task>),
            rt.slab().future_slots() == Seq::new(task_capacity as nat, |i: int| None::<F>),
            forall|i: int| !#[trigger] rt.slab().claimed(i),
    {
        Runtime { tasks: TaskSlab::new(task_capacity), ready: Vec::new() }
    }

    /// Starts a task with `future`. Nothing when every slot is taken.
    pub fn spawn(&mut self, future: F) -> (index: Option<u32>)
        requires
            old(self).wf(),
        ensures
            final(self).wf(),
            match index {
                Some(i) => {
                    &&& !old(self).slab().claimed(i as int)
                    &&& forall|j: int| 0 <= j < i ==> #[trigger] old(self).slab().claimed(j)
                    &&& forall|j: int|
                        #![trigger final(self).slab().claimed(j)]
                        #![trigger old(self).slab().claimed(j)]
                        final(self).slab().claimed(j) == (j == i || old(self).slab().claimed(j))
                    &&& final(self).slab().future_slots() == old(
                        self,
                    ).slab().future_slots().update(i as int, Some(future))
                    &&& final(self).slab().task_slots() == old(self).slab().task_slots().update(
                        i as int,
                        final(self).slab().task_slots()[i as int],
                    )
                    &&& final(self).slab().task_slots()[i as int] matches Some(t) && t.ready
                        && t.fresh(TASK_ARENA)
                    &&& final(self).queue() == old(self).queue().push(i)
                },
                None => {
                    &&& forall|j: int|
                        0 <= j < old(self).slab().task_slots().len() ==> #[trigger] old(
                            self,
                        ).slab().claimed(j)
                    &&& *final(self) == *old(self)
                },
            },
    {
        proof {
            self.tasks.wf_means();
        }
        let index: u32 = match self.tasks.insert_vacant() {
            Some(index) => index,
            None => return None,
        };
        let mut task: Task = Task::new(TASK_ARENA);
        task.ready = true;
        self.tasks.init_task(index, task);
        self.tasks.init_future(index, future);
        self.ready.push(index);
        proof {
            assert forall|i: int| #[trigger] self.slab().claimed(i) implies self.slab().filled(i)
                && self.slab().task_slots()[i]->Some_0.wf() by {
                if i != index {
                    assert(old(self).slab().claimed(i));
                    assert(old(self).slab().filled(i));
                }
            }
        }
        Some(index)
    }

    /// Takes the tasks to poll in this turn. Those that are queued meanwhile
    /// wait for the next.
    pub fn begin_turn(&mut self) -> (turn: Vec<u32>)
        requires
            old(self).wf(),
        ensures
            final(self).wf(),
            turn@ == old(self).queue(),
            final(self).queue() == Seq::<u32>::empty(),
            final(self).slab() == old(self).slab(),
    {
        let mut turn: Vec<u32> = Vec::new();
        core::mem::swap(&mut turn, &mut self.ready);
        turn
    }

    /// Whether task `index` is to be polled: it is still there. It is queued
    /// no more.
    pub fn begin_poll(&mut self, index: u32) -> (there: bool)
        requires
            old(self).wf(),
        ensures
            final(self).wf(),
            there == old(self).slab().claimed(index as int),
            final(self).queue() == old(self).queue(),
            final(self).slab().same_claims(&old(self).slab()),
            final(self).slab().future_slots() == old(self).slab().future_slots(),
            final(self).slab().task_slots() == if there {
                old(self).slab().task_slots().update(
                    index as int,
                    Some(
                        Task { ready: false, ..old(self).slab().task_slots()[index as int]->Some_0 },
                    ),
                )
            } else {
                old(self).slab().task_slots()
            },
    {
        if !self.tasks.is_occupied(index) {
            return false;
        }
        let task: &mut Task = self.tasks.task_mut(index);
        task.ready = false;
        true
    }

    /// Goes on after task `index` was polled. One that is done goes.
    pub fn polled(&mut self, index: u32, done: bool)
        requires
            old(self).wf(),
            old(self).slab().claimed(index as int),
        ensures
            final(self).wf(),
            final(self).queue() == old(self).queue(),
            if done {
                &&& final(self).slab().task_slots() == old(self).slab().task_slots().update(
                    index as int,
                    None,
                )
                &&& final(self).slab().future_slots() == old(self).slab().future_slots().update(
                    index as int,
                    None,
                )
                &&& forall|j: int|
                    #![trigger final(self).slab().claimed(j)]
                    #![trigger old(self).slab().claimed(j)]
                    final(self).slab().claimed(j) == (j != index && old(self).slab().claimed(j))
            } else {
                *final(self) == *old(self)
            },
    {
        if done {
            proof {
                self.tasks.wf_means();
            }
            let _ = self.tasks.remove(index);
            proof {
                assert forall|i: int| #[trigger] self.slab().claimed(i) implies self.slab().filled(
                    i,
                ) && self.slab().task_slots()[i]->Some_0.wf() by {
                    assert(old(self).slab().claimed(i));
                    assert(old(self).slab().filled(i));
                }
            }
        }
    }

    /// Queues the tasks that were woken, each once.
    pub fn drain_wakes(&mut self, woken: &[u32])
        requires
            old(self).wf(),
        ensures
            final(self).wf(),
            final(self).slab() == old(self).slab(),
            final(self).queue() == with_woken(old(self).queue(), woken@),
    {
        let ghost start = self.ready@;
        let mut k: usize = 0;
        assert(woken@.take(0) =~= Seq::empty());
        while k < woken.len()
            invariant
                k <= woken@.len(),
                self.tasks == old(self).tasks,
                self.ready@ == with_woken(start, woken@.take(k as int)),
            decreases woken@.len() - k,
        {
            if !lists(&self.ready, woken[k]) {
                self.ready.push(woken[k]);
            }
            proof {
                let t = woken@.take(k + 1);
                assert(t.drop_last() =~= woken@.take(k as int));
                assert(t.last() == woken@[k as int]);
            }
            k = k + 1;
        }
        assert(woken@.take(k as int) =~= woken@);
    }

    /// Takes a completion in: its result is recorded, its operation is no
    /// longer in flight, the block of its buffer is given back, and its task is
    /// queued.
    pub fn complete(&mut self, user_data: u64, result: i32)
        requires
            old(self).wf(),
            ({
                let ud = op::untag(user_data);
                let t = ud.index as int;
                old(self).slab().claimed(t) ==> {
                    let task = old(self).slab().task_slots()[t]->Some_0;
                    let blocks = task.inflight.values();
                    &&& ud.io_slot < u32::MAX
                    &&& ud.io_slot < blocks.len()
                    &&& blocks[ud.io_slot as int] matches Some(a) && task.arena.holds(a)
                }
            }),
        ensures
            final(self).wf(),
            final(self).slab().same_claims(&old(self).slab()),
            final(self).slab().future_slots() == old(self).slab().future_slots(),
            ({
                let ud = op::untag(user_data);
                let t = ud.index as int;
                let x = ud.io_slot as int;
                if old(self).slab().claimed(t) {
                    let before = old(self).slab().task_slots()[t]->Some_0;
                    let after = final(self).slab().task_slots()[t]->Some_0;
                    let a = before.inflight.values()[x]->Some_0;
                    &&& final(self).slab().task_slots() == old(self).slab().task_slots().update(
                        t,
                        Some(after),
                    )
                    &&& after.ready
                    &&& after.io.results() == io_state::put(before.io.results(), x, result, 0)
                    &&& forall|i: int|
                        #![trigger after.io.in_flight(i)]
                        after.io.in_flight(i) == (i != x && before.io.in_flight(i))
                    &&& forall|i: int|
                        #![trigger after.io.done(i)]
                        after.io.done(i) == before.io.done(i)
                    &&& after.io.blocks() == before.io.blocks()
                    &&& after.io.on_heap() == (before.io.on_heap() || x >= io_state::INLINE_SLOTS)
                    &&& after.inflight.values() == before.inflight.values().update(x, None)
                    &&& after.inflight.freed() == before.inflight.freed().push(ud.io_slot)
                    &&& forall|i: int|
                        #![trigger after.inflight.has(i)]
                        after.inflight.has(i) == (i != x && before.inflight.has(i))
                    &&& given_back(before.arena, after.arena, a)
                    &&& final(self).queue() == if before.ready {
                        old(self).queue()
                    } else {
                        old(self).queue().push(ud.index)
                    }
                } else {
                    *final(self) == *old(self)
                }
            }),
    {
        let ud: IoUserData = IoUserData::from(user_data);
        if !self.tasks.is_occupied(ud.index) {
            return;
        }
        let task: &mut Task = self.tasks.task_mut(ud.index);
        task.io.set_result(ud.io_slot, result);
        task.io.set_submitted(ud.io_slot, false);
        let block: ArenaAlloc = task.inflight.remove(ud.io_slot);
        task.arena.dealloc(block);
        let was_ready: bool = task.ready;
        task.ready = true;
        if !was_ready {
            self.ready.push(ud.index);
        }
        proof {
            assert forall|i: int| #[trigger] self.slab().claimed(i) implies self.slab().filled(i)
                && self.slab().task_slots()[i]->Some_0.wf() by {
                assert(old(self).slab().claimed(i));
            }
        }
    }
}

/// Block `a` of an arena was given back.
pub open spec fn given_back(before: Arena, after: Arena, a: ArenaAlloc) -> bool {
    exists|k: int|
        {
            &&& #[trigger] before.is_block(a, k)
            &&& after.limit() == before.limit()
            &&& after.blocks() == arena::trimmed(
                before.blocks().update(k, Block { dead: true, ..before.blocks()[k] }),
            )
        }
}

/// Tasks that were queued keep their places, and those that are woken follow in
/// the order in which they were: waking some and then others is the same as
/// waking all of them.
pub proof fn woken_tasks_follow_in_order(ready: Seq<u32>, a: Seq<u32>, b: Seq<u32>)
    ensures
        with_woken(ready, a + b) == with_woken(with_woken(ready, a), b),
        ready.is_prefix_of(with_woken(ready, b)),
        with_woken(ready, Seq::<u32>::empty()) == ready,
        b.len() == 1 && !ready.contains(b[0]) ==> with_woken(ready, b) == ready.push(b[0]),
        b.len() == 1 && ready.contains(b[0]) ==> with_woken(ready, b) == ready,
    decreases b.len(),
{
    if b.len() == 0 {
        assert(a + b =~= a);
        assert(ready.subrange(0, ready.len() as int) =~= ready);
    } else {
        woken_tasks_follow_in_order(ready, a, b.drop_last());
        assert((a + b).drop_last() =~= a + b.drop_last());
        assert((a + b).last() == b.last());
        let all = with_woken(ready, b);
        let head = with_woken(ready, b.drop_last());
        assert(all.subrange(0, ready.len() as int) =~= head.subrange(0, ready.len() as int));
        if b.len() == 1 {
            assert(b.drop_last() =~= Seq::<u32>::empty());
        }
    }
}

/// Giving a block back ends that block, and every other block that is in use
/// stays where it is.
pub proof fn other_blocks_stay(
    before: Arena,
    after: Arena,
    a: ArenaAlloc,
    b: ArenaAlloc,
    j: int,
)
    requires
        before.wf(),
        given_back(before, after, a),
        before.is_block(b, j),
        b.offset + b.size != a.offset + a.size,
    ensures
        after.is_block(b, j),
        after.limit() == before.limit(),
        forall|k: int|
            0 <= k < after.blocks().len() && (#[trigger] after.blocks()[k]).end == a.offset + a.size
                ==> after.blocks()[k].dead,
{
    before.blocks_are_stacked();
    let k = choose|k: int|
        {
            &&& #[trigger] before.is_block(a, k)
            &&& after.limit() == before.limit()
            &&& after.blocks() == arena::trimmed(
                before.blocks().update(k, Block { dead: true, ..before.blocks()[k] }),
            )
        };
    let marked = before.blocks().update(k, Block { dead: true, ..before.blocks()[k] });
    assert(j != k);
    assert(marked[j] == before.blocks()[j]);
    arena::only_dead_blocks_are_reclaimed(marked, j);
    let left = arena::trimmed(marked);
    assert(left[j] == marked[j]);
    assert forall|i: int|
        0 <= i < after.blocks().len() && (#[trigger] after.blocks()[i]).end == a.offset
            + a.size implies after.blocks()[i].dead by {
        assert(left[i] == marked[i]);
        assert(marked[i].end == before.blocks()[i].end);
        if i < k {
            assert(before.blocks()[i].end + arena::FOOTER_SIZE <= before.blocks()[k].start);
        } else if k < i {
            assert(before.blocks()[k].end + arena::FOOTER_SIZE <= before.blocks()[i].start);
        }
    }
}

} // verus!
