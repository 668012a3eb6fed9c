//! The loop that runs tasks until the first one is done and nothing is left to
//! wait for.
//!
//! The loop itself polls futures and waits on the ring; what it does when is
//! decided here. A turn begins with the completions that have come in, polls
//! every task that was woken or made ready, and ends by waiting, by going on
//! at once, or for good.

use vstd::prelude::*;

use crate::coio::ledger;
use crate::coio::runtime;
use crate::coio::runtime::join;
use crate::coio::runtime::join::JoinHandle;
use crate::coio::runtime::Cancel;
use crate::coio::runtime::Completion;
use crate::coio::runtime::Runtime;
use crate::coio::runtime::Sched;
use crate::coio::task::Task;
use crate::coio::task::TaskContext;
use crate::coio::task::TaskState;
use crate::coio::task::NO_JOINER;

verus! {

/// The error of a ring that has too many completions to take more
/// submissions: no reason to stop.
pub const EBUSY: i32 = 16;

/// What to do next in a turn.
pub enum NextTask {
    /// Poll the future of the task in this slot.
    Poll(u32),
    /// Submit these requests, and go on.
    Cancel(Vec<Cancel>),
    /// The turn is over.
    Over,
}

/// How a turn ends.
#[derive(Clone, Copy, Debug, PartialEq, Eq, Structural)]
pub enum TurnEnd {
    /// Nothing is in flight and no task was woken: the loop is done.
    Done,
    /// Tasks were woken: begin the next turn at once.
    Again,
    /// Submit, and wait for a completion.
    Wait,
}

/// The loop's own state: the first task, the tasks of this turn and how many
/// of them were dealt with, and the first task's output.
pub struct MainLoop<R> {
    main: TaskContext,
    ready: Vec<u32>,
    next: usize,
    output: Option<R>,
}

/// The place of the first task in `ready`, from `k` on, that is still there;
/// its length if there is none.
pub open spec fn first_there(s: Sched, ready: Seq<u32>, k: int) -> int
    decreases ready.len() - k,
{
    if k >= ready.len() {
        ready.len() as int
    } else if s.has(ready[k] as int) {
        k
    } else {
        first_there(s, ready, k + 1)
    }
}

impl Sched {
    /// Slot numbers do not run out: each operation of each task can get
    /// another slot.
    pub open spec fn roomy(self) -> bool {
        forall|t: int|
            self.has(t) ==> self.io.len() + (#[trigger] self.tasks[t])->Some_0.io.len() < u32::MAX
    }

    /// Whether the output of task `t`, which is the first task or not, is to
    /// be kept for its handle: not that of the first task, none that nobody
    /// wants, and no second one.
    pub open spec fn keeps_output(self, t: int, first: bool) -> bool {
        let state = self.tasks[t]->Some_0;
        !first && !state.detached && !state.output_pending
    }

    /// After the future of task `t` gave an output.
    pub open spec fn future_done(self, t: int, first: bool) -> Sched {
        let state = self.tasks[t]->Some_0;
        self.with_task(
            t,
            TaskState {
                finished: true,
                output_pending: state.output_pending || self.keeps_output(t, first),
                ..state
            },
        )
    }
}

impl<R> MainLoop<R> {
    #[verifier::type_invariant]
    spec fn inv(self) -> bool {
        self.next <= self.ready@.len()
    }

    /// The first task.
    pub closed spec fn first(&self) -> TaskContext {
        self.main
    }

    /// Whether the task in slot `t` is the first task. A later task in the
    /// same slot is not.
    pub open spec fn is_first(&self, s: Sched, t: u32) -> bool {
        t == self.first().task_index && s.alive(self.first())
    }

    /// The first task's output after task `t` was polled with `outcome`. Once
    /// there is one, it stays.
    pub open spec fn result_after(&self, s: Sched, t: u32, outcome: Option<R>) -> Option<R> {
        if self.is_first(s, t) && self.result() is None {
            outcome
        } else {
            self.result()
        }
    }

    /// The tasks of this turn.
    pub closed spec fn turn(&self) -> Seq<u32> {
        self.ready@
    }

    /// How many of them were dealt with.
    pub closed spec fn done(&self) -> int {
        self.next as int
    }

    /// The first task's output.
    pub closed spec fn result(&self) -> Option<R> {
        self.output
    }

    /// Whether every task of this turn was dealt with.
    pub open spec fn turn_over(&self) -> bool {
        self.done() == self.turn().len()
    }

    /// Starts the first task. Nothing when there is no slot for it.
    pub fn start<F, S: FnOnce(TaskContext) -> F>(
        rt: &mut Runtime<F, R>,
        task: Task,
        make_fut: S,
    ) -> (main: Option<MainLoop<R>>)
        requires
            old(rt).wf(),
            !task@.output_pending,
            forall|ctx: TaskContext| make_fut.requires((ctx,)),
        ensures
            final(rt).wf(),
            match main {
                Some(m) => {
                    let t = m.first().task_index;
                    &&& m.first().task_id == task@.id
                    &&& t < old(rt)@.tasks.len()
                    &&& old(rt)@.tasks[t as int] is None
                    &&& forall|j: int| 0 <= j < t ==> (#[trigger] old(rt)@.tasks[j]) is Some
                    &&& final(rt)@ == old(rt)@.spawned(t, TaskState { ready: true, ..task@ })
                    &&& final(rt).futures()[t as int] matches Some(f) && make_fut.ensures(
                        (m.first(),),
                        f,
                    )
                    &&& final(rt).futures() == old(rt).futures().update(
                        t as int,
                        final(rt).futures()[t as int],
                    )
                    &&& final(rt).outputs() == old(rt).outputs()
                    &&& final(rt).kept() == old(rt).kept()
                    &&& final(rt).pools() == old(rt).pools()
                    &&& m.turn() == Seq::<u32>::empty()
                    &&& m.turn_over()
                    &&& m.result() is None
                },
                None => {
                    &&& forall|j: int|
                        0 <= j < old(rt)@.tasks.len() ==> (#[trigger] old(rt)@.tasks[j]) is Some
                    &&& final(rt)@ == old(rt)@
                    &&& final(rt).same_contents(&*old(rt))
                },
            },
    {
        let handle: Option<JoinHandle<R>> = rt.spawn(task, make_fut);
        match handle {
            Some(handle) => {
                let ctx: TaskContext = handle.context();
                Some(MainLoop { main: ctx, ready: Vec::new(), next: 0, output: None })
            },
            None => None,
        }
    }

    /// Begins a turn with completions `cqes`: the tasks that were woken come
    /// first, then those that the completions make ready.
    pub fn begin_turn<F>(&mut self, rt: &mut Runtime<F, R>, cqes: &[Completion])
        requires
            old(rt).wf(),
            old(self).turn_over(),
        ensures
            final(rt).wf(),
            final(rt).same_contents(&*old(rt)),
            ({
                let s = Sched { wakeups: Seq::empty(), ..old(rt)@ };
                &&& final(rt)@ == s.completions_seen(cqes@)
                &&& final(self).turn() == old(rt)@.wakeups + s.all_made_ready(cqes@)
            }),
            final(self).done() == 0,
            final(self).first() == old(self).first(),
            final(self).result() == old(self).result(),
    {
        let mut ready: Vec<u32> = Vec::new();
        core::mem::swap(&mut ready, &mut rt.wakeups);
        assert(rt@ =~= (Sched { wakeups: Seq::empty(), ..old(rt)@ }));
        rt.drain_cqes(cqes, &mut ready);
        self.next = 0;
        self.ready = ready;
    }

    /// Deals with the next task of the turn. The submission ring takes `room`
    /// more entries.
    pub fn next_task<F>(&mut self, rt: &mut Runtime<F, R>, room: usize) -> (next: NextTask)
        requires
            old(rt).wf(),
            ledger::balanced(old(rt)@),
            old(rt)@.roomy(),
        ensures
            final(rt).wf(),
            ledger::balanced(final(rt)@),
            final(self).first() == old(self).first(),
            final(self).turn() == old(self).turn(),
            final(self).result() == old(self).result(),
            ({
                let s = old(rt)@;
                let k = first_there(s, old(self).turn(), old(self).done());
                if k == old(self).turn().len() {
                    &&& next is Over
                    &&& final(self).turn_over()
                    &&& final(rt)@ == s
                    &&& final(rt).same_contents(&*old(rt))
                } else {
                    let t = old(self).turn()[k];
                    let state = s.tasks[t as int]->Some_0;
                    &&& final(self).done() == k + 1
                    &&& if state.finished {
                        &&& next matches NextTask::Cancel(requests) && s.finalized(
                            final(rt)@,
                            t as int,
                            room as int,
                            requests@,
                        )
                        &&& final(rt)@.has(t as int) ==> final(rt).same_contents(&*old(rt))
                        &&& !final(rt)@.has(t as int) ==> final(rt).futures()
                            == old(rt).futures().update(t as int, None) && final(rt).outputs()
                            == old(rt).outputs().update(t as int, None) && final(rt).kept()
                            == runtime::kept_with(
                            old(rt).kept(),
                            state,
                            old(rt).outputs()[t as int],
                        )
                        &&& final(rt).pools() == old(rt).pools()
                    } else {
                        &&& next == NextTask::Poll(t)
                        &&& final(rt)@ == s.with_task(
                            t as int,
                            TaskState { ready: false, ..state },
                        )
                        &&& final(rt).same_contents(&*old(rt))
                    }
                }
            }),
    {
        proof {
            use_type_invariant(&*self);
        }
        let ghost s = rt@;
        let ghost all = self.ready@;
        let ghost from = self.next as int;
        let mut k: usize = self.next;
        while k < self.ready.len() && !rt.has_task(self.ready[k])
            invariant
                rt.wf(),
                rt@ == s,
                *rt == *old(rt),
                *self == *old(self),
                all == self.ready@,
                from <= k <= all.len(),
                first_there(s, all, from) == first_there(s, all, k as int),
            decreases all.len() - k,
        {
            k = k + 1;
        }
        if k == self.ready.len() {
            self.next = k;
            return NextTask::Over;
        }
        let t: u32 = self.ready[k];
        self.next = k + 1;
        if rt.tasks.task(t).is_finished() {
            proof {
                let io = s.tasks[t as int]->Some_0.io;
                assert forall|j: int| 0 <= j < io.len() implies (#[trigger] io[j]) < s.io.len() by {
                    assert(io.contains(io[j]));
                    assert(ledger::holds(s, t as int, io[j]));
                }
            }
            let requests: Vec<Cancel> = rt.finalize_task(t, room);
            proof {
                ledger::finalization_is_accounted(s, rt@, t as int, room as int, requests@);
            }
            return NextTask::Cancel(requests);
        }
        let task: &mut Task = rt.tasks.task_mut(t);
        task.set_ready(false);
        proof {
            let state = s.tasks[t as int]->Some_0;
            assert(rt@ =~= s.with_task(t as int, TaskState { ready: false, ..state }));
            ledger::same_holdings_balance(s, rt@);
        }
        NextTask::Poll(t)
    }

    /// Takes the outcome of polling task `t` in: nothing while it is pending,
    /// else its output. A task that is done is finalized, and its output is
    /// kept for its handle.
    pub fn task_polled<F>(
        &mut self,
        rt: &mut Runtime<F, R>,
        t: u32,
        outcome: Option<R>,
        room: usize,
    ) -> (requests: Vec<Cancel>)
        requires
            old(rt).wf(),
            ledger::balanced(old(rt)@),
            old(rt)@.roomy(),
            old(rt)@.has(t as int),
        ensures
            final(rt).wf(),
            ledger::balanced(final(rt)@),
            final(self).first() == old(self).first(),
            final(self).turn() == old(self).turn(),
            final(self).done() == old(self).done(),
            final(self).result() == old(self).result_after(old(rt)@, t, outcome),
            final(rt).pools() == old(rt).pools(),
            match outcome {
                None => {
                    &&& requests@ == Seq::<Cancel>::empty()
                    &&& final(rt)@ == old(rt)@
                    &&& final(rt).same_contents(&*old(rt))
                },
                Some(value) => {
                    let first = old(self).is_first(old(rt)@, t);
                    let s = old(rt)@.future_done(t as int, first);
                    let outputs = if old(rt)@.keeps_output(t as int, first) {
                        old(rt).outputs().update(t as int, Some(value))
                    } else {
                        old(rt).outputs()
                    };
                    &&& s.finalized(final(rt)@, t as int, room as int, requests@)
                    &&& if final(rt)@.has(t as int) {
                        &&& final(rt).futures() == old(rt).futures()
                        &&& final(rt).outputs() == outputs
                        &&& final(rt).kept() == old(rt).kept()
                    } else {
                        &&& final(rt).futures() == old(rt).futures().update(t as int, None)
                        &&& final(rt).outputs() == outputs.update(t as int, None)
                        &&& final(rt).kept() == runtime::kept_with(
                            old(rt).kept(),
                            s.tasks[t as int]->Some_0,
                            outputs[t as int],
                        )
                    }
                },
            },
    {
        proof {
            use_type_invariant(&*self);
            rt.wf_means();
        }
        let value: R = match outcome {
            Some(value) => value,
            None => return Vec::new(),
        };
        let ghost s = rt@;
        let ghost first = self.is_first(s, t);
        if t == self.main.task_index && join::task_alive(&*rt, self.main) {
            if self.output.is_none() {
                self.output = Some(value);
            }
        } else if !rt.tasks.task(t).is_detached() && !rt.tasks.task(t).has_output() {
            rt.tasks.init_output(t, value);
        }
        let task: &mut Task = rt.tasks.task_mut(t);
        task.finish();
        proof {
            let r = rt@;
            assert(r =~= s.future_done(t as int, first));
            ledger::same_holdings_balance(s, r);
            assert(r.tasks[t as int]->Some_0.io == s.tasks[t as int]->Some_0.io);
            let io = r.tasks[t as int]->Some_0.io;
            assert forall|j: int| 0 <= j < io.len() implies (#[trigger] io[j]) < r.io.len() by {
                assert(io.contains(io[j]));
                assert(ledger::holds(r, t as int, io[j]));
            }
        }
        let ghost r = rt@;
        let requests: Vec<Cancel> = rt.finalize_task(t, room);
        proof {
            ledger::finalization_is_accounted(r, rt@, t as int, room as int, requests@);
        }
        requests
    }

    /// Ends a turn.
    pub fn end_turn<F>(&self, rt: &Runtime<F, R>) -> (end: TurnEnd)
        ensures
            end == if rt@.busy() {
                TurnEnd::Wait
            } else if rt@.wakeups.len() == 0 {
                TurnEnd::Done
            } else {
                TurnEnd::Again
            },
    {
        if !rt.has_io_in_flight() {
            if rt.wakeups.len() == 0 {
                return TurnEnd::Done;
            }
            return TurnEnd::Again;
        }
        TurnEnd::Wait
    }

    /// Whether the loop goes on after waiting on the ring ended with `error`,
    /// or without one.
    pub fn goes_on(error: Option<i32>) -> (on: bool)
        ensures
            on == (error is None || error == Some(EBUSY)),
    {
        match error {
            None => true,
            Some(errno) => errno == EBUSY,
        }
    }

    /// What the loop returns: the first task's output. Nothing when that task
    /// never finished.
    pub fn into_output(self) -> (output: Option<R>)
        ensures
            output == self.result(),
    {
        self.output
    }
}

proof fn lemma_cancels_are_local(s: Sched, t: int, victims: Seq<u32>, room: int)
    requires
        s.has(t),
    ensures
        ({
            let r = s.cancels_pushed(t, victims, room);
            &&& r.tasks.len() == s.tasks.len()
            &&& r.has(t)
            &&& r.wakeups == s.wakeups
            &&& r.tasks[t]->Some_0.joiner == s.tasks[t]->Some_0.joiner
            &&& r.tasks[t]->Some_0.id == s.tasks[t]->Some_0.id
            &&& forall|u: int| 0 <= u < s.tasks.len() && u != t ==> r.tasks[u] == s.tasks[u]
        }),
    decreases victims.len(),
{
    if victims.len() > 0 {
        lemma_cancels_are_local(s.cancel_pushed(t, room > 0), t, victims.skip(1), room - 1);
    }
}

/// Finalizing a task changes no other task, and wakes the task that waits for
/// it exactly when it goes.
pub proof fn finalization_is_local(
    s: Sched,
    r: Sched,
    t: int,
    room: int,
    cancels: Seq<Cancel>,
)
    requires
        s.has(t),
        s.finalized(r, t, room, cancels),
    ensures
        r.tasks.len() == s.tasks.len(),
        forall|u: int| 0 <= u < s.tasks.len() && u != t ==> r.tasks[u] == s.tasks[u],
        ({
            let joiner = s.tasks[t]->Some_0.joiner;
            r.wakeups == if !r.has(t) && joiner != NO_JOINER {
                s.wakeups.push(joiner)
            } else {
                s.wakeups
            }
        }),
{
    let mid = choose|mid: Sched|
        {
            let last = mid.after_cancels(t, room);
            &&& #[trigger] s.reaped(mid, t)
            &&& cancels == if mid.tasks[t]->Some_0.cancel_requested {
                mid.cancels(t, mid.tasks[t]->Some_0.io, room)
            } else {
                Seq::empty()
            }
            &&& r == if last.tasks[t]->Some_0.io.len() == 0 {
                last.task_removed(t)
            } else {
                last
            }
        };
    if mid.tasks[t]->Some_0.cancel_requested {
        lemma_cancels_are_local(mid, t, mid.tasks[t]->Some_0.io, room);
    }
}

/// A task that is still there after it was finalized is the same task.
proof fn finalization_keeps_identity(s: Sched, r: Sched, t: int, room: int, cancels: Seq<Cancel>)
    requires
        s.has(t),
        s.finalized(r, t, room, cancels),
    ensures
        r.has(t) ==> r.tasks[t]->Some_0.id == s.tasks[t]->Some_0.id,
{
    let mid = choose|mid: Sched|
        {
            let last = mid.after_cancels(t, room);
            &&& #[trigger] s.reaped(mid, t)
            &&& cancels == if mid.tasks[t]->Some_0.cancel_requested {
                mid.cancels(t, mid.tasks[t]->Some_0.io, room)
            } else {
                Seq::empty()
            }
            &&& r == if last.tasks[t]->Some_0.io.len() == 0 {
                last.task_removed(t)
            } else {
                last
            }
        };
    if mid.tasks[t]->Some_0.cancel_requested {
        lemma_cancels_are_local(mid, t, mid.tasks[t]->Some_0.io, room);
    }
}

/// A task that is done and holds no operation is removed at once.
pub proof fn idle_task_goes_at_once(
    s: Sched,
    r: Sched,
    t: int,
    room: int,
    cancels: Seq<Cancel>,
)
    requires
        s.has(t),
        s.tasks[t]->Some_0.io.len() == 0,
        s.finalized(r, t, room, cancels),
    ensures
        !r.has(t),
        cancels.len() == 0,
{
    let mid = choose|mid: Sched|
        {
            let last = mid.after_cancels(t, room);
            &&& #[trigger] s.reaped(mid, t)
            &&& cancels == if mid.tasks[t]->Some_0.cancel_requested {
                mid.cancels(t, mid.tasks[t]->Some_0.io, room)
            } else {
                Seq::empty()
            }
            &&& r == if last.tasks[t]->Some_0.io.len() == 0 {
                last.task_removed(t)
            } else {
                last
            }
        };
    let kept = mid.tasks[t]->Some_0.io;
    if kept.len() > 0 {
        assert(kept.contains(kept[0]));
        assert(s.tasks[t]->Some_0.io.contains(kept[0]));
    }
}

/// What the task of `ctx` finished with, and its handle has not taken yet: it
/// is in the task's slot while the task is there, and kept by id afterwards.
pub open spec fn owed<R>(
    s: Sched,
    outputs: Seq<Option<R>>,
    kept: Map<u64, R>,
    ctx: TaskContext,
) -> Option<R> {
    if s.alive(ctx) {
        outputs[ctx.task_index as int]
    } else if kept.contains_key(ctx.task_id) {
        Some(kept[ctx.task_id])
    } else {
        None
    }
}

/// A task that finishes owes its output to its handle, whether another task
/// waits for it already or not, and whether or not it goes at once. The task
/// that waits for it is polled again once it is gone.
pub proof fn joiner_gets_the_output<R>(
    s: Sched,
    r: Sched,
    t: u32,
    room: int,
    cancels: Seq<Cancel>,
    outputs: Seq<Option<R>>,
    kept: Map<u64, R>,
    value: R,
)
    requires
        s.has(t as int),
        s.keeps_output(t as int, false),
        outputs.len() == s.tasks.len(),
        s.future_done(t as int, false).finalized(r, t as int, room, cancels),
    ensures
        ({
            let state = s.tasks[t as int]->Some_0;
            let ctx = TaskContext { task_index: t, task_id: state.id };
            let left = outputs.update(t as int, Some(value));
            &&& r.has(t as int) ==> r.alive(ctx) && owed(r, left, kept, ctx) == Some(value)
            &&& !r.has(t as int) ==> owed(
                r,
                left.update(t as int, None),
                runtime::kept_with(
                    kept,
                    s.future_done(t as int, false).tasks[t as int]->Some_0,
                    left[t as int],
                ),
                ctx,
            ) == Some(value) && (state.joiner != NO_JOINER ==> r.wakeups == s.wakeups.push(
                state.joiner,
            ))
        }),
{
    finalization_is_local(s.future_done(t as int, false), r, t as int, room, cancels);
    finalization_keeps_identity(s.future_done(t as int, false), r, t as int, room, cancels);
}

/// What a task owes stays owed while other tasks finish and go, and when the
/// task itself goes.
pub proof fn owed_output_stays<R>(
    s: Sched,
    r: Sched,
    u: u32,
    room: int,
    cancels: Seq<Cancel>,
    outputs: Seq<Option<R>>,
    kept: Map<u64, R>,
    ctx: TaskContext,
)
    requires
        s.has(u as int),
        outputs.len() == s.tasks.len(),
        s.finalized(r, u as int, room, cancels),
        outputs[u as int] is Some <==> s.tasks[u as int]->Some_0.output_pending,
        s.tasks[u as int]->Some_0.id == ctx.task_id ==> s.alive(ctx) && u == ctx.task_index,
        owed(s, outputs, kept, ctx) is Some,
    ensures
        owed(
            r,
            if r.has(u as int) {
                outputs
            } else {
                outputs.update(u as int, None)
            },
            if r.has(u as int) {
                kept
            } else {
                runtime::kept_with(kept, s.tasks[u as int]->Some_0, outputs[u as int])
            },
            ctx,
        ) == owed(s, outputs, kept, ctx),
{
    finalization_is_local(s, r, u as int, room, cancels);
    finalization_keeps_identity(s, r, u as int, room, cancels);
}

/// The first task's output is what the loop returns: whichever task is polled
/// later, in whichever slot, and whatever it gives, it is not replaced. A task
/// that only took the first task's slot is never taken for it.
pub proof fn first_output_stays<R>(main: MainLoop<R>, s: Sched, t: u32, outcome: Option<R>)
    ensures
        main.result() is Some ==> main.result_after(s, t, outcome) == main.result(),
        !s.alive(main.first()) ==> main.result_after(s, t, outcome) == main.result(),
        t != main.first().task_index ==> main.result_after(s, t, outcome) == main.result(),
        s.alive(main.first()) && t == main.first().task_index && main.result() is None
            ==> main.result_after(s, t, outcome) == outcome,
{
}

/// What a task owes stays owed when another task is spawned, also into the
/// slot that it had.
pub proof fn spawning_keeps_what_is_owed<R>(
    s: Sched,
    t: u32,
    state: TaskState,
    outputs: Seq<Option<R>>,
    kept: Map<u64, R>,
    ctx: TaskContext,
)
    requires
        t < s.tasks.len(),
        !s.has(t as int),
        state.id != ctx.task_id,
    ensures
        owed(s.spawned(t, state), outputs, kept, ctx) == owed(s, outputs, kept, ctx),
{
}

/// What a task owes stays owed when a completion comes in.
pub proof fn completions_keep_what_is_owed<R>(
    s: Sched,
    c: Completion,
    outputs: Seq<Option<R>>,
    kept: Map<u64, R>,
    ctx: TaskContext,
)
    ensures
        owed(s.completion_seen(c), outputs, kept, ctx) == owed(s, outputs, kept, ctx),
{
}

/// A task that was cancelled before it had an output owes nothing when it is
/// gone: its join gives nothing.
pub proof fn cancelled_task_leaves_no_output<R>(
    s: Sched,
    r: Sched,
    t: u32,
    room: int,
    cancels: Seq<Cancel>,
    outputs: Seq<Option<R>>,
    kept: Map<u64, R>,
)
    requires
        s.has(t as int),
        outputs.len() == s.tasks.len(),
        !s.tasks[t as int]->Some_0.output_pending,
        !kept.contains_key(s.tasks[t as int]->Some_0.id),
        s.finalized(r, t as int, room, cancels),
        !r.has(t as int),
    ensures
        ({
            let state = s.tasks[t as int]->Some_0;
            owed(
                r,
                outputs.update(t as int, None),
                runtime::kept_with(kept, state, outputs[t as int]),
                TaskContext { task_index: t, task_id: state.id },
            ) is None
        }),
{
}

/// A turn goes to the next task on its list that is still there, and passes
/// over only tasks that are gone.
pub proof fn turn_passes_over_gone_tasks(s: Sched, ready: Seq<u32>, k: int)
    requires
        0 <= k <= ready.len(),
    ensures
        k <= first_there(s, ready, k) <= ready.len(),
        first_there(s, ready, k) < ready.len() ==> s.has(
            ready[first_there(s, ready, k)] as int,
        ),
        forall|j: int| k <= j < first_there(s, ready, k) ==> !s.has(#[trigger] ready[j] as int),
    decreases ready.len() - k,
{
    if k < ready.len() && !s.has(ready[k] as int) {
        turn_passes_over_gone_tasks(s, ready, k + 1);
    }
}

/// A task whose future is done is finished. Its output is kept unless it is the
/// first task's or nobody wants it, and never replaces one that is kept
/// already. It keeps its operations, its joiner and its identity.
pub proof fn finished_task_keeps_its_output(s: Sched, t: int, first: bool)
    requires
        s.has(t),
    ensures
        ({
            let before = s.tasks[t]->Some_0;
            let after = s.future_done(t, first).tasks[t]->Some_0;
            &&& after.finished
            &&& !first && !before.detached ==> after.output_pending
            &&& first || before.detached ==> after.output_pending == before.output_pending
            &&& s.keeps_output(t, first) ==> !before.output_pending
            &&& after.io == before.io && after.joiner == before.joiner && after.id == before.id
                && after.cancel_requested == before.cancel_requested && after.detached
                == before.detached
            &&& after.ready == before.ready
            &&& forall|u: int|
                0 <= u < s.tasks.len() && u != t ==> s.future_done(t, first).tasks[u] == s.tasks[u]
            &&& s.future_done(t, first).io == s.io && s.future_done(t, first).wakeups == s.wakeups
                && s.future_done(t, first).free == s.free
        }),
{
}

/// An output is kept under the task's id exactly when the task left one, and
/// the outputs of other tasks stay.
pub proof fn output_is_kept_by_id<R>(
    kept: Map<u64, R>,
    state: TaskState,
    output: Option<R>,
    id: u64,
)
    ensures
        ({
            let after = runtime::kept_with(kept, state, output);
            &&& state.output_pending ==> after.contains_key(state.id) && Some(after[state.id])
                == Some(output->Some_0)
            &&& !state.output_pending || id != state.id ==> after.contains_key(id)
                == kept.contains_key(id) && after[id] == kept[id]
        }),
{
}

/// A finished task that was cancelled has its operations cancelled: each that
/// is in flight gets a request that names it, if the ring has room for all of
/// them. A task that was not cancelled lets its operations complete.
pub proof fn cancelled_operations_get_requests(
    s: Sched,
    r: Sched,
    t: u32,
    room: int,
    cancels: Seq<Cancel>,
    x: u32,
)
    requires
        s.has(t as int),
        s.finalized(r, t as int, room, cancels),
        s.tasks[t as int]->Some_0.io.contains(x),
        !s.io[x as int].completed(),
        room >= s.tasks[t as int]->Some_0.io.len(),
        s.tasks[t as int]->Some_0.io.no_duplicates(),
    ensures
        s.tasks[t as int]->Some_0.cancel_requested ==> exists|k: int|
            0 <= k < cancels.len() && (#[trigger] cancels[k]).victim == x * 0x1_0000_0000 + t,
        !s.tasks[t as int]->Some_0.cancel_requested ==> cancels.len() == 0,
{
    let i = t as int;
    let held = s.tasks[i]->Some_0.io;
    let mid = choose|mid: Sched|
        {
            let last = mid.after_cancels(i, room);
            &&& #[trigger] s.reaped(mid, i)
            &&& cancels == if mid.tasks[i]->Some_0.cancel_requested {
                mid.cancels(i, mid.tasks[i]->Some_0.io, room)
            } else {
                Seq::empty()
            }
            &&& r == if last.tasks[i]->Some_0.io.len() == 0 {
                last.task_removed(i)
            } else {
                last
            }
        };
    let kept = mid.tasks[i]->Some_0.io;
    assert(kept.contains(x));
    if s.tasks[i]->Some_0.cancel_requested {
        assert(kept.len() <= held.len()) by {
            kept.unique_seq_to_set();
            held.unique_seq_to_set();
            assert(kept.to_set().subset_of(held.to_set()));
            vstd::set_lib::lemma_len_subset(kept.to_set(), held.to_set());
        }
        let k = choose|k: int| 0 <= k < kept.len() && kept[k] == x;
        ledger::cancel_requests_name_their_operations(mid, t, kept, room, k);
        assert(cancels[k].victim == x * 0x1_0000_0000 + t);
    }
}

/// A turn is over once every task on its list was dealt with.
pub proof fn turn_is_over_at_its_end<R>(main: MainLoop<R>)
    ensures
        main.turn_over() <==> main.done() == main.turn().len(),
{
}

proof fn lemma_cancels_keep_state(s: Sched, t: int, victims: Seq<u32>, room: int)
    requires
        s.has(t),
    ensures
        ({
            let r = s.cancels_pushed(t, victims, room);
            &&& r.has(t)
            &&& r.tasks[t]->Some_0 == (TaskState {
                io: r.tasks[t]->Some_0.io,
                ..s.tasks[t]->Some_0
            })
        }),
    decreases victims.len(),
{
    if victims.len() > 0 {
        lemma_cancels_keep_state(s.cancel_pushed(t, room > 0), t, victims.skip(1), room - 1);
    }
}

/// A task that stays after it was finalized differs only in the operations that
/// it holds: whoever waits for it, and what it owes, stays.
pub proof fn waiting_task_keeps_its_state(
    s: Sched,
    r: Sched,
    t: int,
    room: int,
    cancels: Seq<Cancel>,
)
    requires
        s.has(t),
        s.finalized(r, t, room, cancels),
        r.has(t),
    ensures
        r.tasks[t]->Some_0 == (TaskState { io: r.tasks[t]->Some_0.io, ..s.tasks[t]->Some_0 }),
        r.tasks[t]->Some_0.io.len() > 0,
{
    let mid = choose|mid: Sched|
        {
            let last = mid.after_cancels(t, room);
            &&& #[trigger] s.reaped(mid, t)
            &&& cancels == if mid.tasks[t]->Some_0.cancel_requested {
                mid.cancels(t, mid.tasks[t]->Some_0.io, room)
            } else {
                Seq::empty()
            }
            &&& r == if last.tasks[t]->Some_0.io.len() == 0 {
                last.task_removed(t)
            } else {
                last
            }
        };
    if mid.tasks[t]->Some_0.cancel_requested {
        lemma_cancels_keep_state(mid, t, mid.tasks[t]->Some_0.io, room);
    }
}

} // verus!
