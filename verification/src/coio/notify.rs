//! A one-shot notification that carries a value to a single waiter.

use vstd::prelude::*;

use crate::coio::runtime::join::Poll;
use crate::coio::runtime::Runtime;
use crate::coio::runtime::Sched;
use crate::coio::task;
use crate::coio::task::TaskContext;

verus! {

/// A value on its way to a waiter. One that was not consumed is overwritten by
/// the next.
pub struct Notify<T> {
    value: Option<T>,
    waiter: Option<TaskContext>,
}

impl<T> Notify<T> {
    /// The value that was delivered and not yet consumed.
    pub closed spec fn stored(&self) -> Option<T> {
        self.value
    }

    /// The task that waits.
    pub closed spec fn waiting(&self) -> Option<TaskContext> {
        self.waiter
    }

    /// Nothing delivered, nobody waiting.
    pub fn new() -> (n: Self)
        ensures
            n.stored() is None,
            n.waiting() is None,
    {
        Notify { value: None, waiter: None }
    }

    /// Delivers `value`, and wakes the task that waits. It stays registered, so
    /// only it can consume the value.
    pub fn notify<F, R>(&mut self, rt: &mut Runtime<F, R>, value: T)
        requires
            old(rt).wf(),
            old(self).waiting() matches Some(ctx) ==> task::context_error(
                ctx,
                true,
                old(rt)@.tasks,
            ) is None,
        ensures
            final(rt).wf(),
            final(rt).same_contents(&*old(rt)),
            final(self).stored() == Some(value),
            final(self).waiting() == old(self).waiting(),
            final(rt)@ == match old(self).waiting() {
                Some(ctx) => Sched {
                    wakeups: old(rt)@.wakeups.push(ctx.task_index),
                    ..old(rt)@
                },
                None => old(rt)@,
            },
    {
        self.value = Some(value);
        match self.waiter {
            Some(ctx) => {
                ctx.wake(rt);
            },
            None => {},
        }
    }

    /// Whether a task waits.
    pub fn has_waiter(&self) -> (waits: bool)
        ensures
            waits == (self.waiting() is Some),
    {
        self.waiter.is_some()
    }

    /// A future that waits for a value on behalf of `ctx`.
    pub fn wait(&self, ctx: TaskContext) -> (wait: Wait)
        ensures
            wait.context() == ctx,
            !wait.is_registered(),
    {
        Wait { ctx, registered: false }
    }
}

impl<T> Default for Notify<T> {
    fn default() -> (n: Self)
        ensures
            n.stored() is None,
            n.waiting() is None,
    {
        Notify::new()
    }
}

/// Waits for a value.
pub struct Wait {
    ctx: TaskContext,
    registered: bool,
}

impl Wait {
    pub closed spec fn context(&self) -> TaskContext {
        self.ctx
    }

    /// Whether the future is the registered waiter: it was polled and has not
    /// got a value since.
    pub closed spec fn is_registered(&self) -> bool {
        self.registered
    }

    /// Takes the value if there is one, and is then no longer registered. The
    /// first poll registers the waiter otherwise; there must be no other.
    pub fn poll<T>(&mut self, n: &mut Notify<T>) -> (poll: Poll<T>)
        requires
            !old(self).is_registered() ==> old(n).waiting() is None,
        ensures
            final(self).is_registered() == (poll is Pending),
            final(self).context() == old(self).context(),
            match old(n).stored() {
                Some(value) => {
                    &&& poll == Poll::Ready(value)
                    &&& final(n).stored() is None
                    &&& final(n).waiting() is None
                },
                None => {
                    &&& poll == Poll::<T>::Pending
                    &&& final(n).stored() is None
                    &&& final(n).waiting() == if old(self).is_registered() {
                        old(n).waiting()
                    } else {
                        Some(old(self).context())
                    }
                },
            },
    {
        match n.value.take() {
            Some(value) => {
                self.registered = false;
                n.waiter = None;
                Poll::Ready(value)
            },
            None => {
                if !self.registered {
                    self.registered = true;
                    n.waiter = Some(self.ctx);
                }
                Poll::Pending
            },
        }
    }

    /// Stops waiting: a later value is only stored. A wait that has got its
    /// value leaves whoever waits by now alone.
    pub fn release<T>(self, n: &mut Notify<T>)
        ensures
            final(n).stored() == old(n).stored(),
            final(n).waiting() == if self.is_registered() {
                None
            } else {
                old(n).waiting()
            },
    {
        if self.registered {
            n.waiter = None;
        }
    }
}

} // verus!
