//! Waiting for tasks: handles, the futures that wait, and contexts that spawn.

use std::marker::PhantomData;

use vstd::prelude::*;

use crate::coio::generation::Generation;
use crate::coio::runtime::Runtime;
use crate::coio::runtime::Sched;
use crate::coio::task;
use crate::coio::task::Task;
use crate::coio::task::TaskContext;
use crate::coio::task::TaskState;
use crate::coio::task::NO_JOINER;

verus! {

/// What polling a future gives.
#[derive(Debug, PartialEq, Eq)]
pub enum Poll<T> {
    Pending,
    Ready(T),
}

impl Sched {
    /// Whether the task that `ctx` names is still there.
    pub open spec fn alive(self, ctx: TaskContext) -> bool {
        self.has(ctx.task_index as int) && self.tasks[ctx.task_index as int]->Some_0.id
            == ctx.task_id
    }

    /// After a task in state `state` was put into slot `t`, to be polled next.
    pub open spec fn spawned(self, t: u32, state: TaskState) -> Sched {
        Sched { wakeups: self.wakeups.push(t), ..self.with_task(t as int, state) }
    }
}

/// Whether the task that `ctx` names is still there: until its future has
/// finished and all of its operations were given back.
pub fn task_alive<F, R>(rt: &Runtime<F, R>, ctx: TaskContext) -> (alive: bool)
    requires
        rt.wf(),
    ensures
        alive == rt@.alive(ctx),
{
    proof {
        rt.wf_means();
        rt.tasks.wf_means();
    }
    rt.tasks.is_occupied(ctx.task_index) && rt.tasks.context_for(ctx.task_index).task_id
        == ctx.task_id
}

impl<F, R> Runtime<F, R> {
    /// Starts `task` with the future that `make_fut` makes of its context.
    /// Nothing when every slot is taken.
    pub fn spawn<S: FnOnce(TaskContext) -> F>(&mut self, task: Task, make_fut: S) -> (handle:
        Option<JoinHandle<R>>)
        requires
            old(self).wf(),
            !task@.output_pending,
            forall|ctx: TaskContext| make_fut.requires((ctx,)),
        ensures
            final(self).wf(),
            match handle {
                Some(h) => {
                    let t = h.target().task_index;
                    let state = TaskState { ready: true, ..task@ };
                    &&& t < old(self)@.tasks.len()
                    &&& old(self)@.tasks[t as int] is None
                    &&& forall|j: int| 0 <= j < t ==> (#[trigger] old(self)@.tasks[j]) is Some
                    &&& h.target().task_id == task@.id
                    &&& final(self)@ == old(self)@.spawned(t, state)
                    &&& final(self).futures()[t as int] matches Some(f) && make_fut.ensures(
                        (h.target(),),
                        f,
                    )
                    &&& final(self).futures() == old(self).futures().update(
                        t as int,
                        final(self).futures()[t as int],
                    )
                    &&& final(self).outputs() == old(self).outputs()
                    &&& final(self).kept() == old(self).kept()
                    &&& final(self).pools() == old(self).pools()
                },
                None => {
                    &&& forall|j: int|
                        0 <= j < old(self)@.tasks.len() ==> (#[trigger] old(self)@.tasks[j])
                            is Some
                    &&& final(self)@ == old(self)@
                    &&& final(self).same_contents(&*old(self))
                },
            },
    {
        let mut task: Task = task;
        task.set_ready(true);
        proof {
            self.tasks.wf_means();
        }
        match self.tasks.insert(task, make_fut) {
            Some(index) => {
                let target: TaskContext = self.tasks.context_for(index);
                self.wakeups.push(index);
                Some(JoinHandle { target, _marker: PhantomData })
            },
            None => None,
        }
    }
}

impl TaskContext {
    /// Has the context's task polled again.
    pub fn wake<F, R>(&self, rt: &mut Runtime<F, R>)
        requires
            old(rt).wf(),
            task::context_error(*self, true, old(rt)@.tasks) is None,
        ensures
            final(rt).wf(),
            final(rt)@ == (Sched {
                wakeups: old(rt)@.wakeups.push(self.task_index),
                ..old(rt)@
            }),
            final(rt).same_contents(&*old(rt)),
    {
        rt.wakeups.push(self.task_index);
    }

    /// The context's task, to change.
    pub fn with_task<'a, F, R>(&self, rt: &'a mut Runtime<F, R>) -> (task: &'a mut Task)
        requires
            old(rt).wf(),
            task::context_error(*self, true, old(rt)@.tasks) is None,
        ensures
            task@ == old(rt)@.tasks[self.task_index as int]->Some_0,
            final(rt)@.tasks == old(rt)@.tasks.update(self.task_index as int, Some(final(task)@)),
            final(rt)@.wakeups == old(rt)@.wakeups,
            final(rt)@.io == old(rt)@.io,
            final(rt)@.free == old(rt)@.free,
            final(rt).same_contents(&*old(rt)),
            final(task)@.output_pending == task@.output_pending ==> final(rt).wf(),
    {
        rt.tasks.task_mut(self.task_index)
    }
}

/// A handle to a spawned task. The task's operations are not cancelled when it
/// finishes, unless that is asked for through the handle. The task's output is
/// kept for the handle until it is joined or detached.
pub struct JoinHandle<R> {
    target: TaskContext,
    _marker: PhantomData<R>,
}

impl<R> JoinHandle<R> {
    /// The task this handle is of.
    pub closed spec fn target(&self) -> TaskContext {
        self.target
    }

    /// The context of the task.
    pub fn context(&self) -> (ctx: TaskContext)
        ensures
            ctx == self.target(),
    {
        self.target
    }

    /// A future that waits for the task.
    pub fn join(self) -> (future: JoinFuture<R>)
        ensures
            future.target() == self.target(),
            !future.is_registered(),
            future.waiter() is None,
    {
        JoinFuture { handle: self, me: None, registered: false }
    }

    /// Whether the task has finished and was removed.
    pub fn is_finished<F>(&self, rt: &Runtime<F, R>) -> (finished: bool)
        requires
            rt.wf(),
        ensures
            finished == !rt@.alive(self.target()),
    {
        !task_alive(rt, self.target)
    }

    /// After the output of the task was given up.
    pub open spec fn detached(&self, s: Sched) -> Sched {
        let t = self.target().task_index as int;
        if s.alive(self.target()) {
            s.with_task(
                t,
                TaskState { detached: true, output_pending: false, ..s.tasks[t]->Some_0 },
            )
        } else {
            s
        }
    }

    /// Gives the task's output up. The task runs on.
    pub fn detach<F>(self, rt: &mut Runtime<F, R>)
        requires
            old(rt).wf(),
        ensures
            final(rt).wf(),
            final(rt)@ == self.detached(old(rt)@),
            final(rt).futures() == old(rt).futures(),
            final(rt).pools() == old(rt).pools(),
            final(rt).outputs() == if old(rt)@.alive(self.target()) {
                old(rt).outputs().update(self.target().task_index as int, None)
            } else {
                old(rt).outputs()
            },
            final(rt).kept() == if old(rt)@.alive(self.target()) {
                old(rt).kept()
            } else {
                old(rt).kept().remove(self.target().task_id)
            },
    {
        broadcast use vstd::std_specs::hash::group_hash_axioms;

        proof {
            rt.wf_means();
        }
        if !task_alive(&*rt, self.target) {
            rt.kept.remove(&self.target.task_id);
            return;
        }
        let t: u32 = self.target.task_index;
        if rt.tasks.task(t).has_output() {
            let _ = rt.tasks.take_output(t);
        }
        let task: &mut Task = rt.tasks.task_mut(t);
        task.detach();
        assert(rt@ =~= self.detached(old(rt)@));
        assert(rt.outputs() =~= old(rt).outputs().update(t as int, None));
    }

    /// Stops the task from running further and has its operations cancelled.
    /// One that has finished is left alone. False when the task is gone.
    pub fn cancel<F>(&self, rt: &mut Runtime<F, R>) -> (there: bool)
        requires
            old(rt).wf(),
        ensures
            final(rt).wf(),
            there == old(rt)@.alive(self.target()),
            final(rt).same_contents(&*old(rt)),
            ({
                let t = self.target().task_index;
                let state = old(rt)@.tasks[t as int]->Some_0;
                final(rt)@ == if there && !state.finished {
                    Sched {
                        wakeups: old(rt)@.wakeups.push(t),
                        ..old(rt)@.with_task(
                            t as int,
                            TaskState { finished: true, cancel_requested: true, ..state },
                        )
                    }
                } else {
                    old(rt)@
                }
            }),
    {
        if !task_alive(&*rt, self.target) {
            return false;
        }
        let t: u32 = self.target.task_index;
        if rt.tasks.task(t).is_finished() {
            return true;
        }
        let ghost state = rt@.tasks[t as int]->Some_0;
        let task: &mut Task = rt.tasks.task_mut(t);
        task.cancel();
        rt.wakeups.push(t);
        assert(rt@ =~= (Sched {
            wakeups: old(rt)@.wakeups.push(t),
            ..old(rt)@.with_task(
                t as int,
                TaskState { finished: true, cancel_requested: true, ..state },
            )
        }));
        true
    }
}

/// Waits for a task. It is done once the task has finished and was removed,
/// and gives the task's output, or nothing if the task was cancelled before it
/// had one.
pub struct JoinFuture<R> {
    handle: JoinHandle<R>,
    me: Option<u32>,
    registered: bool,
}

impl<R> JoinFuture<R> {
    /// The task that is waited for.
    pub closed spec fn target(&self) -> TaskContext {
        self.handle.target()
    }

    /// Whether the future was polled before.
    pub closed spec fn is_registered(&self) -> bool {
        self.registered
    }

    /// The task that waits.
    pub closed spec fn waiter(&self) -> Option<u32> {
        self.me
    }

    /// After this future stopped waiting.
    pub open spec fn unregistered(&self, s: Sched) -> Sched {
        let t = self.target().task_index as int;
        match self.waiter() {
            Some(me) => if self.is_registered() && s.alive(self.target())
                && s.tasks[t]->Some_0.joiner == me {
                s.with_task(t, TaskState { joiner: NO_JOINER, ..s.tasks[t]->Some_0 })
            } else {
                s
            },
            None => s,
        }
    }

    /// After this future stopped waiting and gave the output up.
    pub open spec fn given_up(&self, s: Sched) -> Sched {
        let r = self.unregistered(s);
        let t = self.target().task_index as int;
        if s.alive(self.target()) {
            r.with_task(
                t,
                TaskState { detached: true, output_pending: false, ..r.tasks[t]->Some_0 },
            )
        } else {
            r
        }
    }

    fn unregister<F>(&self, rt: &mut Runtime<F, R>)
        requires
            old(rt).wf(),
        ensures
            final(rt).wf(),
            final(rt)@ == self.unregistered(old(rt)@),
            final(rt).same_contents(&*old(rt)),
    {
        if !self.registered {
            return;
        }
        match self.me {
            Some(me) => {
                let target: TaskContext = self.handle.target;
                if task_alive(&*rt, target) && rt.tasks.task(target.task_index).joiner() == me {
                    let task: &mut Task = rt.tasks.task_mut(target.task_index);
                    task.set_joiner(NO_JOINER);
                    assert(rt@ =~= self.unregistered(old(rt)@));
                }
            },
            None => {},
        }
    }

    /// Stops waiting and gives the handle back, to wait later.
    pub fn into_handle<F>(self, rt: &mut Runtime<F, R>) -> (handle: JoinHandle<R>)
        requires
            old(rt).wf(),
        ensures
            final(rt).wf(),
            handle.target() == self.target(),
            final(rt)@ == self.unregistered(old(rt)@),
            final(rt).same_contents(&*old(rt)),
    {
        self.unregister(rt);
        self.handle
    }

    /// Stops waiting for good: the task's output is given up. A future that
    /// goes away does so.
    pub fn release<F>(self, rt: &mut Runtime<F, R>)
        requires
            old(rt).wf(),
        ensures
            final(rt).wf(),
            final(rt)@ == self.given_up(old(rt)@),
            final(rt).futures() == old(rt).futures(),
            final(rt).pools() == old(rt).pools(),
            final(rt).outputs() == if old(rt)@.alive(self.target()) {
                old(rt).outputs().update(self.target().task_index as int, None)
            } else {
                old(rt).outputs()
            },
            final(rt).kept() == if old(rt)@.alive(self.target()) {
                old(rt).kept()
            } else {
                old(rt).kept().remove(self.target().task_id)
            },
    {
        self.unregister(rt);
        assert(rt@.alive(self.target()) == old(rt)@.alive(self.target()));
        self.handle.detach(rt);
    }

    /// Polls the future from task `current`. A task that has gone gives the
    /// output that is kept for it.
    pub fn poll<F>(&mut self, rt: &mut Runtime<F, R>, current: Option<u32>) -> (poll: Poll<
        Option<R>,
    >)
        requires
            old(rt).wf(),
            old(rt)@.alive(old(self).target()) && !old(self).is_registered() && current is Some
                ==> old(rt)@.tasks[old(self).target().task_index as int]->Some_0.joiner
                == NO_JOINER,
        ensures
            final(rt).wf(),
            final(self).target() == old(self).target(),
            final(rt).futures() == old(rt).futures(),
            final(rt).outputs() == old(rt).outputs(),
            final(rt).pools() == old(rt).pools(),
            if !old(rt)@.alive(old(self).target()) {
                let id = old(self).target().task_id;
                &&& final(self).is_registered() == old(self).is_registered()
                &&& final(self).waiter() == old(self).waiter()
                &&& final(rt)@ == old(rt)@
                &&& final(rt).kept() == old(rt).kept().remove(id)
                &&& poll == Poll::Ready(
                    if old(rt).kept().contains_key(id) {
                        Some(old(rt).kept()[id])
                    } else {
                        None
                    },
                )
            } else {
                &&& poll == Poll::<Option<R>>::Pending
                &&& final(self).is_registered()
                &&& final(rt).kept() == old(rt).kept()
                &&& if old(self).is_registered() || current is None {
                    final(self).waiter() == old(self).waiter() && final(rt)@ == old(rt)@
                } else {
                    let t = old(self).target().task_index as int;
                    &&& final(self).waiter() == current
                    &&& final(rt)@ == old(rt)@.with_task(
                        t,
                        TaskState { joiner: current->Some_0, ..old(rt)@.tasks[t]->Some_0 },
                    )
                }
            },
    {
        broadcast use vstd::std_specs::hash::group_hash_axioms;

        proof {
            rt.wf_means();
        }
        let target: TaskContext = self.handle.target;
        if !task_alive(&*rt, target) {
            return Poll::Ready(rt.kept.remove(&target.task_id));
        }
        if !self.registered {
            self.registered = true;
            match current {
                Some(waiter) => {
                    let task: &mut Task = rt.tasks.task_mut(target.task_index);
                    task.set_joiner(waiter);
                    self.me = Some(waiter);
                    assert(rt@ =~= old(rt)@.with_task(
                        target.task_index as int,
                        TaskState {
                            joiner: waiter,
                            ..old(rt)@.tasks[target.task_index as int]->Some_0
                        },
                    ));
                },
                None => {},
            }
        }
        Poll::Pending
    }
}

/// What a task spawns others with. It belongs to one run.
#[derive(Clone, Copy, Debug, PartialEq, Eq, Structural)]
pub struct RuntimeContext {
    pub generation: u32,
}

impl RuntimeContext {
    /// Starts `task`. The context must be of the active run.
    pub fn spawn<F, R, S: FnOnce(TaskContext) -> F>(
        &self,
        active: &Generation,
        rt: &mut Runtime<F, R>,
        task: Task,
        make_fut: S,
    ) -> (handle: Option<JoinHandle<R>>)
        requires
            active.is(self.generation),
            old(rt).wf(),
            !task@.output_pending,
            forall|ctx: TaskContext| make_fut.requires((ctx,)),
        ensures
            final(rt).wf(),
            match handle {
                Some(h) => {
                    let t = h.target().task_index;
                    &&& t < old(rt)@.tasks.len()
                    &&& old(rt)@.tasks[t as int] is None
                    &&& forall|j: int| 0 <= j < t ==> (#[trigger] old(rt)@.tasks[j]) is Some
                    &&& h.target().task_id == task@.id
                    &&& final(rt)@ == old(rt)@.spawned(t, TaskState { ready: true, ..task@ })
                    &&& final(rt).futures()[t as int] matches Some(f) && make_fut.ensures(
                        (h.target(),),
                        f,
                    )
                    &&& final(rt).futures() == old(rt).futures().update(
                        t as int,
                        final(rt).futures()[t as int],
                    )
                    &&& final(rt).outputs() == old(rt).outputs()
                    &&& final(rt).kept() == old(rt).kept()
                    &&& final(rt).pools() == old(rt).pools()
                },
                None => {
                    &&& forall|j: int|
                        0 <= j < old(rt)@.tasks.len() ==> (#[trigger] old(rt)@.tasks[j]) is Some
                    &&& final(rt)@ == old(rt)@
                    &&& final(rt).same_contents(&*old(rt))
                },
            },
    {
        rt.spawn(task, make_fut)
    }
}

/// A context names a task that is there exactly when its slot holds a task with
/// its id.
pub proof fn alive_means_same_task(s: Sched, ctx: TaskContext)
    ensures
        s.alive(ctx) <==> ctx.task_index < s.tasks.len() && s.tasks[ctx.task_index as int] is Some
            && s.tasks[ctx.task_index as int]->Some_0.id == ctx.task_id,
        s.alive(ctx) <==> task::context_error(ctx, true, s.tasks) is None,
{
}

/// A spawned task is in its slot and will be polled, after those that were
/// woken before it. Nothing else changes.
pub proof fn spawned_task_is_polled(s: Sched, t: u32, state: TaskState)
    requires
        t < s.tasks.len(),
    ensures
        ({
            let r = s.spawned(t, state);
            &&& r.alive(TaskContext { task_index: t, task_id: state.id })
            &&& r.tasks[t as int] == Some(state)
            &&& r.wakeups == s.wakeups + seq![t]
            &&& forall|u: int| 0 <= u < s.tasks.len() && u != t ==> r.tasks[u] == s.tasks[u]
            &&& r.tasks.len() == s.tasks.len() && r.io == s.io && r.free == s.free
        }),
{
}

/// Giving a task's output up marks that task alone, drops an output that it
/// has, and lets it run on with its operations and its joiner. Of a task that
/// is gone nothing is changed.
pub proof fn detached_task_runs_on<R>(h: JoinHandle<R>, s: Sched)
    ensures
        ({
            let t = h.target().task_index as int;
            let r = h.detached(s);
            &&& !s.alive(h.target()) ==> r == s
            &&& s.alive(h.target()) ==> {
                &&& r.alive(h.target())
                &&& r.tasks[t]->Some_0.detached && !r.tasks[t]->Some_0.output_pending
                &&& r.tasks[t]->Some_0.finished == s.tasks[t]->Some_0.finished
                &&& r.tasks[t]->Some_0.cancel_requested == s.tasks[t]->Some_0.cancel_requested
                &&& r.tasks[t]->Some_0.io == s.tasks[t]->Some_0.io
                &&& r.tasks[t]->Some_0.joiner == s.tasks[t]->Some_0.joiner
            }
            &&& forall|u: int| 0 <= u < s.tasks.len() && u != t ==> r.tasks[u] == s.tasks[u]
            &&& r.wakeups == s.wakeups && r.io == s.io && r.free == s.free
        }),
{
}

/// A future that stops waiting takes back its own registration and nobody
/// else's. The task that was waited for is otherwise unchanged, unless its
/// output was given up too.
pub proof fn waiter_takes_back_its_own<R>(f: JoinFuture<R>, s: Sched, me: u32)
    requires
        s.alive(f.target()),
        f.waiter() == Some(me),
        f.is_registered(),
    ensures
        ({
            let t = f.target().task_index as int;
            let before = s.tasks[t]->Some_0;
            let after = f.unregistered(s).tasks[t]->Some_0;
            let given = f.given_up(s).tasks[t]->Some_0;
            &&& before.joiner == me ==> after.joiner == 0xffff_ffff
            &&& before.joiner != me ==> after.joiner == before.joiner
            &&& after == (TaskState { joiner: after.joiner, ..before })
            &&& given == (TaskState { detached: true, output_pending: false, ..after })
            &&& forall|u: int|
                0 <= u < s.tasks.len() && u != t ==> f.given_up(s).tasks[u] == s.tasks[u]
            &&& f.given_up(s).wakeups == s.wakeups && f.given_up(s).io == s.io
        }),
{
}

/// A future that never registered, or whose task is gone, has nothing to take
/// back.
pub proof fn unregistered_waiter_changes_nothing<R>(f: JoinFuture<R>, s: Sched)
    requires
        !f.is_registered() || f.waiter() is None || !s.alive(f.target()),
    ensures
        f.unregistered(s) == s,
{
}

} // verus!
