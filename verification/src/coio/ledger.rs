//! The accounting of operation slots: every slot is either free or held by
//! exactly one task, from the submission of its operation until its completion
//! was consumed.

use vstd::prelude::*;

use crate::coio::op;
use crate::coio::op::IoUserData;
use crate::coio::runtime;
use crate::coio::runtime::Completion;
use crate::coio::runtime::Sched;
use crate::coio::task::TaskState;

verus! {

/// Whether task `t` holds slot `x`.
pub open spec fn holds(s: Sched, t: int, x: u32) -> bool {
    s.has(t) && s.tasks[t]->Some_0.io.contains(x)
}

/// The free list names exactly the unused slots, each once.
pub open spec fn sound(s: Sched) -> bool {
    &&& s.io.len() <= u32::MAX
    &&& s.free.no_duplicates()
    &&& forall|k: int| 0 <= k < s.free.len() ==> (#[trigger] s.free[k]) < s.io.len()
    &&& forall|i: int|
        0 <= i < s.io.len() ==> (s.free.contains(i as u32) <==> (#[trigger] s.io[i]).submitted == 0)
    &&& forall|i: int|
        0 <= i < s.io.len() && (#[trigger] s.io[i]).submitted == 0 ==> s.io[i] == op::unused()
}

/// Every used slot is held by exactly one task, and no other slot is.
pub open spec fn accounted(s: Sched) -> bool {
    &&& forall|t: int, x: u32| #[trigger]
        holds(s, t, x) ==> x < s.io.len() && s.io[x as int].submitted != 0
    &&& forall|t: int| s.has(t) ==> (#[trigger] s.tasks[t])->Some_0.io.no_duplicates()
    &&& forall|t: int, u: int, x: u32| #[trigger]
        holds(s, t, x) && #[trigger] holds(s, u, x) ==> t == u
    &&& forall|x: u32|
        x < s.io.len() && (#[trigger] s.io[x as int]).submitted != 0 ==> exists|t: int|
            holds(s, t, x)
}

/// The accounts balance.
pub open spec fn balanced(s: Sched) -> bool {
    sound(s) && accounted(s)
}

/// Whether `c` is the completion of an operation in flight.
pub open spec fn genuine(s: Sched, c: Completion) -> bool {
    let ud = op::untag(c.user_data);
    &&& holds(s, ud.index as int, ud.io_slot)
    &&& s.io[ud.io_slot as int].in_flight()
}

/// Two states whose tasks hold the same slots, and whose slots are used alike,
/// balance alike.
proof fn lemma_same_account(s: Sched, r: Sched)
    requires
        balanced(s),
        r.io.len() == s.io.len(),
        r.free == s.free,
        forall|i: int|
            0 <= i < s.io.len() ==> (#[trigger] r.io[i]).submitted == s.io[i].submitted && (
            s.io[i].submitted == 0 ==> r.io[i] == s.io[i]),
        forall|t: int, x: u32|
            #![trigger holds(r, t, x)]
            #![trigger holds(s, t, x)]
            holds(r, t, x) == holds(s, t, x),
        forall|t: int| r.has(t) ==> (#[trigger] r.tasks[t])->Some_0.io.no_duplicates(),
    ensures
        balanced(r),
{
    assert forall|x: u32|
        x < r.io.len() && (#[trigger] r.io[x as int]).submitted != 0 implies exists|t: int|
        holds(r, t, x) by {
        assert(s.io[x as int].submitted != 0);
        let t = choose|t: int| holds(s, t, x);
        assert(holds(r, t, x));
    }
    assert forall|i: int| 0 <= i < r.io.len() implies (r.free.contains(i as u32) <==> (
    #[trigger] r.io[i]).submitted == 0) by {
        assert(s.io[i].submitted == r.io[i].submitted);
    }
}

/// Accounts balance as long as tasks hold what they held and slots are what
/// they were.
pub proof fn same_holdings_balance(s: Sched, r: Sched)
    requires
        balanced(s),
        r.io == s.io,
        r.free == s.free,
        r.tasks.len() == s.tasks.len(),
        forall|t: int|
            0 <= t < s.tasks.len() ==> (#[trigger] r.tasks[t] is Some <==> s.tasks[t] is Some),
        forall|t: int|
            0 <= t < s.tasks.len() && s.tasks[t] is Some ==> (#[trigger] r.tasks[t])->Some_0.io
                == s.tasks[t]->Some_0.io,
    ensures
        balanced(r),
{
    assert forall|t: int, x: u32|
        #![trigger holds(r, t, x)]
        #![trigger holds(s, t, x)]
        holds(r, t, x) == holds(s, t, x) by {
        if 0 <= t < s.tasks.len() {
            assert(r.tasks[t] is Some <==> s.tasks[t] is Some);
        }
    }
    assert forall|t: int| r.has(t) implies (#[trigger] r.tasks[t])->Some_0.io.no_duplicates() by {
        assert(s.has(t));
        assert(s.tasks[t]->Some_0.io.no_duplicates());
    }
    lemma_same_account(s, r);
}

/// The slot that the next operation gets is in nobody's use.
pub proof fn next_slot_is_unused(s: Sched)
    requires
        balanced(s),
        s.io.len() < u32::MAX,
    ensures
        s.next_slot() < s.io.len() ==> s.io[s.next_slot() as int].submitted == 0,
        s.next_slot() <= s.io.len(),
        forall|t: int| !#[trigger] holds(s, t, s.next_slot()),
{
    if s.free.len() > 0 {
        let x = s.free.last();
        assert(s.free[s.free.len() - 1] == x);
        assert(s.free.contains(x));
        assert(s.io[x as int].submitted == 0);
    }
}

/// Submitting an operation keeps the accounts balanced: the task holds one
/// more slot, which nobody held.
pub proof fn submission_is_accounted(s: Sched, t: int)
    requires
        balanced(s),
        s.has(t),
        s.io.len() < u32::MAX,
    ensures
        balanced(s.op_started(t)),
        forall|u: int, y: u32|
            #![trigger holds(s.op_started(t), u, y)]
            #![trigger holds(s, u, y)]
            holds(s.op_started(t), u, y) <==> holds(s, u, y) || (u == t && y == s.next_slot()),
        s.op_started(t).io[s.next_slot() as int].in_flight(),
{
    next_slot_is_unused(s);
    let r = s.op_started(t);
    let x = s.next_slot();
    let old_io = s.tasks[t]->Some_0.io;
    let new_io = r.tasks[t]->Some_0.io;
    assert(new_io == old_io.push(x));
    assert forall|u: int, y: u32|
        #![trigger holds(r, u, y)]
        #![trigger holds(s, u, y)]
        holds(r, u, y) <==> holds(s, u, y) || (u == t && y == x) by {
        if u == t {
            if new_io.contains(y) {
                let k = new_io.index_of(y);
                if k < old_io.len() {
                    assert(old_io[k] == y);
                }
            }
            if old_io.contains(y) {
                let k = old_io.index_of(y);
                assert(new_io[k] == y);
            }
            assert(new_io[old_io.len() as int] == x);
        }
    }
    assert(!holds(s, t, x));
    assert(new_io.no_duplicates()) by {
        assert forall|a: int, b: int|
            0 <= a < new_io.len() && 0 <= b < new_io.len() && a != b implies new_io[a]
            != new_io[b] by {
            if a < old_io.len() {
                assert(old_io.contains(old_io[a]));
            }
            if b < old_io.len() {
                assert(old_io.contains(old_io[b]));
            }
        }
    }
    // The free list.
    assert forall|i: int| 0 <= i < r.io.len() implies (r.free.contains(i as u32) <==> (
    #[trigger] r.io[i]).submitted == 0) by {
        if s.free.len() > 0 {
            let n = s.free.len() - 1;
            if r.free.contains(i as u32) {
                let k = r.free.index_of(i as u32);
                assert(s.free[k] == i as u32);
                assert(s.free[n] == x);
                assert(s.free.contains(i as u32));
                assert(s.io[i].submitted == 0);
            }
            if i != x && s.io[i].submitted == 0 {
                assert(s.free.contains(i as u32));
                let k = s.free.index_of(i as u32);
                assert(r.free[k] == i as u32);
            }
        } else {
            if i < s.io.len() {
                assert(s.io[i] == r.io[i]);
            }
        }
    }
    // Use.
    assert forall|u: int, y: u32| #[trigger] holds(r, u, y) implies y < r.io.len()
        && r.io[y as int].submitted != 0 by {
        if holds(s, u, y) {
            assert(y != x);
        }
    }
    assert forall|y: u32|
        y < r.io.len() && (#[trigger] r.io[y as int]).submitted != 0 implies exists|u: int|
        holds(r, u, y) by {
        if y == x {
            assert(holds(r, t, y));
        } else {
            assert(s.io[y as int].submitted != 0);
            let u = choose|u: int| holds(s, u, y);
            assert(holds(r, u, y));
        }
    }
    assert forall|u: int| r.has(u) implies (#[trigger] r.tasks[u])->Some_0.io.no_duplicates() by {
        if u != t {
            assert(s.tasks[u] == r.tasks[u]);
        }
    }
}

/// Giving a held slot back keeps the accounts balanced: the task holds it no
/// more, and it is free.
pub proof fn release_is_accounted(s: Sched, t: int, x: u32)
    requires
        balanced(s),
        holds(s, t, x),
    ensures
        balanced(s.op_ended(t, x)),
        forall|u: int, y: u32|
            #![trigger holds(s.op_ended(t, x), u, y)]
            #![trigger holds(s, u, y)]
            holds(s.op_ended(t, x), u, y) <==> holds(s, u, y) && y != x,
        s.op_ended(t, x).io[x as int] == op::unused(),
{
    let r = s.op_ended(t, x);
    let old_io = s.tasks[t]->Some_0.io;
    op::lemma_swap_removed(old_io, x);
    assert forall|u: int, y: u32|
        #![trigger holds(r, u, y)]
        #![trigger holds(s, u, y)]
        holds(r, u, y) <==> holds(s, u, y) && y != x by {
        if u != t && y == x && holds(s, u, y) {
            assert(holds(s, t, x));
        }
    }
    assert(!s.free.contains(x)) by {
        assert(s.io[x as int].submitted != 0);
    }
    assert(r.free.no_duplicates()) by {
        assert forall|a: int, b: int|
            0 <= a < r.free.len() && 0 <= b < r.free.len() && a != b implies r.free[a]
            != r.free[b] by {
            if a < s.free.len() {
                assert(s.free.contains(s.free[a]));
            }
            if b < s.free.len() {
                assert(s.free.contains(s.free[b]));
            }
        }
    }
    assert forall|i: int| 0 <= i < r.io.len() implies (r.free.contains(i as u32) <==> (
    #[trigger] r.io[i]).submitted == 0) by {
        if i == x {
            assert(r.free[s.free.len() as int] == x);
        } else {
            if r.free.contains(i as u32) {
                let k = r.free.index_of(i as u32);
                assert(s.free[k] == i as u32);
            }
            if s.free.contains(i as u32) {
                let k = s.free.index_of(i as u32);
                assert(r.free[k] == i as u32);
            }
            assert(s.io[i] == r.io[i]);
        }
    }
    assert forall|y: u32|
        y < r.io.len() && (#[trigger] r.io[y as int]).submitted != 0 implies exists|u: int|
        holds(r, u, y) by {
        assert(y != x);
        assert(s.io[y as int].submitted != 0);
        let u = choose|u: int| holds(s, u, y);
        assert(holds(r, u, y));
    }
    assert forall|u: int| r.has(u) implies (#[trigger] r.tasks[u])->Some_0.io.no_duplicates() by {
        if u != t {
            assert(s.tasks[u] == r.tasks[u]);
        } else {
            assert(s.tasks[t]->Some_0.io.no_duplicates());
        }
    }
}

/// A genuine completion keeps the accounts balanced. It reaches the operation
/// that it is of, and no slot that anyone else holds changes.
pub proof fn completion_reaches_its_operation(s: Sched, c: Completion)
    requires
        balanced(s),
        genuine(s, c),
    ensures
        balanced(s.completion_seen(c)),
        ({
            let ud = op::untag(c.user_data);
            let x = ud.io_slot as int;
            let r = s.completion_seen(c);
            &&& if s.tasks[ud.index as int]->Some_0.finished {
                r.io[x] == op::unused() && !holds(r, ud.index as int, ud.io_slot)
            } else {
                r.io[x].completed() && r.io[x].result == c.result
            }
            &&& forall|i: int| 0 <= i < s.io.len() && i != x ==> r.io[i] == s.io[i]
        }),
{
    let ud = op::untag(c.user_data);
    let t = ud.index as int;
    let r = s.completion_seen(c);
    assert(s.known(c));
    if s.tasks[t]->Some_0.finished {
        release_is_accounted(s, t, ud.io_slot);
        assert(!holds(r, t, ud.io_slot));
    } else {
        assert forall|u: int, y: u32|
            #![trigger holds(r, u, y)]
            #![trigger holds(s, u, y)]
            holds(r, u, y) == holds(s, u, y) by {}
        assert forall|u: int| r.has(u) implies (#[trigger] r.tasks[u])->Some_0.io.no_duplicates() by {
            assert(s.tasks[u]->Some_0.io == r.tasks[u]->Some_0.io);
            assert(s.has(u));
        }
        lemma_same_account(s, r);
    }
}

/// Giving the completed operations of a task back keeps the accounts
/// balanced.
pub proof fn reaping_is_accounted(s: Sched, r: Sched, t: int)
    requires
        balanced(s),
        s.has(t),
        s.reaped(r, t),
    ensures
        balanced(r),
        forall|u: int, y: u32|
            #![trigger holds(r, u, y)]
            #![trigger holds(s, u, y)]
            holds(r, u, y) <==> holds(s, u, y) && !(u == t && s.io[y as int].completed()),
{
    let held = s.tasks[t]->Some_0.io;
    let kept = r.tasks[t]->Some_0.io;
    let n = s.free.len() as int;
    let gone = r.free.skip(n);
    assert(r.tasks =~= s.tasks.update(t, Some(TaskState { io: kept, ..s.tasks[t]->Some_0 })));
    assert forall|u: int, y: u32|
        #![trigger holds(r, u, y)]
        #![trigger holds(s, u, y)]
        holds(r, u, y) <==> holds(s, u, y) && !(u == t && s.io[y as int].completed()) by {
        if u == t {
            assert(kept.contains(y) <==> held.contains(y) && !s.io[y as int].completed());
        } else {
            assert(s.has(u) == r.has(u));
        }
    }
    assert forall|k: int| 0 <= k < r.free.len() implies (#[trigger] r.free[k]) < r.io.len() by {
        if k < n {
            assert(r.free.take(n)[k] == s.free[k]);
        } else {
            let x = gone[k - n];
            assert(gone.contains(x));
            assert(holds(s, t, x));
        }
    }
    assert forall|i: int| 0 <= i < r.io.len() implies (r.free.contains(i as u32) <==> (
    #[trigger] r.io[i]).submitted == 0) by {
        let x = i as u32;
        if r.free.contains(x) {
            let k = r.free.index_of(x);
            if k < n {
                assert(r.free.take(n)[k] == s.free[k]);
                assert(s.free.contains(x));
                assert(s.io[i].submitted == 0);
                assert(!holds(s, t, x));
            } else {
                assert(gone[k - n] == x);
                assert(gone.contains(x));
            }
        }
        if r.io[i].submitted == 0 {
            if held.contains(x) && !kept.contains(x) {
                assert(gone.contains(x));
                let k = gone.index_of(x);
                assert(r.free[n + k] == x);
            } else {
                assert(s.io[i].submitted == 0);
                assert(s.free.contains(x));
                let k = s.free.index_of(x);
                assert(r.free.take(n)[k] == x);
            }
        }
    }
    assert(r.free.no_duplicates()) by {
        assert forall|a: int, b: int| 0 <= a < b < r.free.len() implies r.free[a] != r.free[b] by {
            if b < n {
                assert(r.free.take(n)[a] == s.free[a]);
                assert(r.free.take(n)[b] == s.free[b]);
            } else if a >= n {
                assert(gone[a - n] == r.free[a]);
                assert(gone[b - n] == r.free[b]);
            } else {
                let x = gone[b - n];
                assert(gone.contains(x));
                assert(holds(s, t, x));
                assert(r.free.take(n)[a] == s.free[a]);
                assert(s.free.contains(s.free[a]));
                assert(s.io[s.free[a] as int].submitted == 0);
            }
        }
    }
    assert forall|u: int, y: u32| #[trigger] holds(r, u, y) implies y < r.io.len()
        && r.io[y as int].submitted != 0 by {
        assert(holds(s, u, y));
        if held.contains(y) && !kept.contains(y) {
            assert(holds(s, t, y));
        }
        assert(r.io[y as int] == s.io[y as int]);
    }
    assert forall|x: u32|
        x < r.io.len() && (#[trigger] r.io[x as int]).submitted != 0 implies exists|u: int|
        holds(r, u, x) by {
        assert(!(held.contains(x) && !kept.contains(x)));
        assert(s.io[x as int].submitted != 0);
        let u = choose|u: int| holds(s, u, x);
        if u == t {
            assert(held.contains(x));
            assert(kept.contains(x));
        }
        assert(holds(r, u, x));
    }
    assert forall|u: int| r.has(u) implies (#[trigger] r.tasks[u])->Some_0.io.no_duplicates() by {
        if u != t {
            assert(s.tasks[u] == r.tasks[u]);
        }
    }
}

/// A request to cancel an operation keeps the accounts balanced, whether the
/// ring takes it or not.
pub proof fn cancelling_is_accounted(s: Sched, t: int, victims: Seq<u32>, room: int)
    requires
        balanced(s),
        s.has(t),
        s.io.len() + victims.len() < u32::MAX,
    ensures
        balanced(s.cancels_pushed(t, victims, room)),
        s.cancels_pushed(t, victims, room).has(t),
    decreases victims.len(),
{
    if victims.len() > 0 {
        submission_is_accounted(s, t);
        let mid = s.op_started(t);
        if room <= 0 {
            assert(holds(mid, t, s.next_slot()));
            release_is_accounted(mid, t, s.next_slot());
        }
        cancelling_is_accounted(s.cancel_pushed(t, room > 0), t, victims.skip(1), room - 1);
    }
}

/// Removing a task that holds no operation keeps the accounts balanced.
pub proof fn removal_is_accounted(s: Sched, t: int)
    requires
        balanced(s),
        s.has(t),
        s.tasks[t]->Some_0.io.len() == 0,
    ensures
        balanced(s.task_removed(t)),
{
    let r = s.task_removed(t);
    assert forall|u: int, y: u32|
        #![trigger holds(r, u, y)]
        #![trigger holds(s, u, y)]
        holds(r, u, y) == holds(s, u, y) by {}
    assert forall|u: int| r.has(u) implies (#[trigger] r.tasks[u])->Some_0.io.no_duplicates() by {
        assert(s.tasks[u] == r.tasks[u]);
    }
    lemma_same_account(s, r);
}

/// Finalizing a task keeps the accounts balanced, and a task goes only once
/// every slot it held was given back.
pub proof fn finalization_is_accounted(
    s: Sched,
    r: Sched,
    t: int,
    room: int,
    cancels: Seq<runtime::Cancel>,
)
    requires
        balanced(s),
        s.has(t),
        s.finalized(r, t, room, cancels),
        s.io.len() + s.tasks[t]->Some_0.io.len() < u32::MAX,
    ensures
        balanced(r),
{
    let mid = choose|mid: Sched|
        {
            let last = mid.after_cancels(t, room);
            &&& #[trigger] s.reaped(mid, t)
            &&& cancels == if mid.tasks[t]->Some_0.cancel_requested {
                mid.cancels(t, mid.tasks[t]->Some_0.io, room)
            } else {
                Seq::empty()
            }
            &&& r == if last.tasks[t]->Some_0.io.len() == 0 {
                last.task_removed(t)
            } else {
                last
            }
        };
    reaping_is_accounted(s, mid, t);
    let held = s.tasks[t]->Some_0.io;
    let kept = mid.tasks[t]->Some_0.io;
    assert(kept.len() <= held.len()) by {
        held.unique_seq_to_set();
        kept.unique_seq_to_set();
        assert(kept.to_set().subset_of(held.to_set())) by {
            assert forall|x: u32| kept.to_set().contains(x) implies held.to_set().contains(x) by {
                assert(kept.contains(x));
                assert(held.contains(x));
            }
        }
        vstd::set_lib::lemma_len_subset(kept.to_set(), held.to_set());
    }
    if mid.tasks[t]->Some_0.cancel_requested {
        cancelling_is_accounted(mid, t, kept, room);
    }
    let last = mid.after_cancels(t, room);
    if last.tasks[t]->Some_0.io.len() == 0 {
        removal_is_accounted(last, t);
    }
}

/// A new run is balanced.
pub proof fn empty_run_is_balanced(tasks: Seq<Option<TaskState>>)
    requires
        forall|t: int| 0 <= t < tasks.len() ==> tasks[t] is None,
    ensures
        balanced(
            Sched { tasks, wakeups: Seq::empty(), io: Seq::empty(), free: Seq::empty() },
        ),
{
}

/// An operation in flight keeps its task in its slot: finalization does not
/// remove a task that still waits for a completion.
pub proof fn tasks_outlive_their_operations(
    s: Sched,
    r: Sched,
    t: int,
    room: int,
    cancels: Seq<runtime::Cancel>,
    x: u32,
)
    requires
        balanced(s),
        s.has(t),
        s.finalized(r, t, room, cancels),
        holds(s, t, x),
        s.io[x as int].in_flight(),
        s.io.len() + s.tasks[t]->Some_0.io.len() < u32::MAX,
    ensures
        holds(r, t, x),
        r.io[x as int].in_flight(),
{
    let mid = choose|mid: Sched|
        {
            let last = mid.after_cancels(t, room);
            &&& #[trigger] s.reaped(mid, t)
            &&& cancels == if mid.tasks[t]->Some_0.cancel_requested {
                mid.cancels(t, mid.tasks[t]->Some_0.io, room)
            } else {
                Seq::empty()
            }
            &&& r == if last.tasks[t]->Some_0.io.len() == 0 {
                last.task_removed(t)
            } else {
                last
            }
        };
    finalization_is_accounted(s, r, t, room, cancels);
    reaping_is_accounted(s, mid, t);
    assert(holds(mid, t, x));
    let held = s.tasks[t]->Some_0.io;
    let kept = mid.tasks[t]->Some_0.io;
    assert(kept.contains(x));
    assert(mid.io[x as int] == s.io[x as int]);
    assert(kept.len() <= held.len()) by {
        held.unique_seq_to_set();
        kept.unique_seq_to_set();
        assert(kept.to_set().subset_of(held.to_set())) by {
            assert forall|y: u32| kept.to_set().contains(y) implies held.to_set().contains(y) by {
                assert(kept.contains(y));
                assert(held.contains(y));
            }
        }
        vstd::set_lib::lemma_len_subset(kept.to_set(), held.to_set());
    }
    if mid.tasks[t]->Some_0.cancel_requested {
        lemma_cancels_keep(mid, t, kept, room, x);
    }
    let last = mid.after_cancels(t, room);
    assert(holds(last, t, x));
    assert(last.tasks[t]->Some_0.io.len() > 0);
}

/// Cancel requests take nothing from the task.
proof fn lemma_cancels_keep(s: Sched, t: int, victims: Seq<u32>, room: int, x: u32)
    requires
        balanced(s),
        holds(s, t, x),
        s.io[x as int].in_flight(),
        s.io.len() + victims.len() < u32::MAX,
    ensures
        holds(s.cancels_pushed(t, victims, room), t, x),
        s.cancels_pushed(t, victims, room).io[x as int].in_flight(),
    decreases victims.len(),
{
    if victims.len() > 0 {
        submission_is_accounted(s, t);
        next_slot_is_unused(s);
        let mid = s.op_started(t);
        assert(!holds(s, t, s.next_slot()));
        assert(holds(mid, t, x));
        assert(mid.io[x as int] == s.io[x as int]);
        if room <= 0 {
            assert(holds(mid, t, s.next_slot()));
            release_is_accounted(mid, t, s.next_slot());
            assert(holds(mid.op_ended(t, s.next_slot()), t, x));
        }
        lemma_cancels_keep(s.cancel_pushed(t, room > 0), t, victims.skip(1), room - 1, x);
    }
}

/// The tag that a submission of task `t` in slot `x` carries leads its
/// completion back to them.
pub proof fn submissions_are_found_again(s: Sched, t: u32, x: u32, result: i32, flags: u32)
    requires
        balanced(s),
        holds(s, t as int, x),
        s.io[x as int].in_flight(),
    ensures
        genuine(
            s,
            Completion { user_data: op::tag(IoUserData { index: t, io_slot: x }), result, flags },
        ),
{
    op::tagged_data_comes_back(IoUserData { index: t, io_slot: x });
}

/// An operation's result reaches the task that submitted it: the completion of
/// a submission is recorded in its slot, which the task still holds.
pub proof fn results_reach_their_task(s: Sched, t: u32, result: i32, flags: u32)
    requires
        balanced(s),
        s.has(t as int),
        !s.tasks[t as int]->Some_0.finished,
        s.io.len() < u32::MAX,
    ensures
        ({
            let x = s.next_slot();
            let c = Completion {
                user_data: op::tag(IoUserData { index: t, io_slot: x }),
                result,
                flags,
            };
            let r = s.op_started(t as int).completion_seen(c);
            &&& balanced(r)
            &&& holds(r, t as int, x)
            &&& r.io[x as int].completed()
            &&& r.io[x as int].result == result
            &&& r.tasks[t as int]->Some_0.ready
        }),
{
    let x = s.next_slot();
    let mid = s.op_started(t as int);
    let c = Completion { user_data: op::tag(IoUserData { index: t, io_slot: x }), result, flags };
    submission_is_accounted(s, t as int);
    assert(holds(mid, t as int, x));
    submissions_are_found_again(mid, t, x, result, flags);
    completion_reaches_its_operation(mid, c);
}

/// A completion for a running task is recorded in full, in whichever slot its
/// operation is: the slot has the result, and the buffer that the flags select,
/// whose number `b` is their upper half. Where the flags select no buffer, the
/// slot's buffer id stays what it was. The task is ready, and no other slot and
/// no other task changes.
pub proof fn completion_is_recorded_in_its_slot(s: Sched, t: u32, x: u32, c: Completion, b: u16)
    requires
        s.has(t as int),
        !s.tasks[t as int]->Some_0.finished,
        x < s.io.len(),
        c.user_data == x * 0x1_0000_0000 + t,
    ensures
        ({
            let r = s.completion_seen(c);
            let slot = r.io[x as int];
            &&& c.flags & 1 == 1 && c.flags >> 16 == b ==> slot.bid == b
            &&& c.flags % 2 == 1 ==> slot.bid == c.flags / 65536
            &&& c.flags % 2 == 0 ==> slot.bid == s.io[x as int].bid
            &&& slot.result == c.result
            &&& slot.ready != 0
            &&& slot.submitted == s.io[x as int].submitted
            &&& r.io.len() == s.io.len()
            &&& forall|i: int| 0 <= i < s.io.len() && i != x ==> r.io[i] == s.io[i]
            &&& r.tasks.len() == s.tasks.len()
            &&& r.tasks[t as int] == Some(
                TaskState { ready: true, ..s.tasks[t as int]->Some_0 },
            )
            &&& forall|u: int| 0 <= u < s.tasks.len() && u != t ==> r.tasks[u] == s.tasks[u]
            &&& r.free == s.free
            &&& r.wakeups == s.wakeups
        }),
{
    let flags = c.flags;
    assert((flags & 1 == 1) == (flags % 2 == 1) && (flags & 1 == 0) == (flags % 2 == 0) && (flags
        >> 16) as u16 == flags / 65536 && flags >> 16 == flags / 65536) by (bit_vector);
    op::tagged_data_comes_back(IoUserData { index: t, io_slot: x });
}

/// A completion that names no slot or no task changes nothing, and makes no
/// task ready.
pub proof fn stray_completion_is_dropped(s: Sched, t: u32, x: u32, c: Completion)
    requires
        c.user_data == x * 0x1_0000_0000 + t,
        x >= s.io.len() || !s.has(t as int),
    ensures
        s.completion_seen(c) == s,
        s.made_ready(c).len() == 0,
{
    op::tagged_data_comes_back(IoUserData { index: t, io_slot: x });
}

/// A completion has its task polled at most once: a running task that is
/// queued already is not queued again, and a finished one is queued only when
/// this was the last operation it held.
pub proof fn completion_queues_its_task_once(s: Sched, t: u32, x: u32, c: Completion)
    requires
        balanced(s),
        holds(s, t as int, x),
        c.user_data == x * 0x1_0000_0000 + t,
    ensures
        ({
            let state = s.tasks[t as int]->Some_0;
            let queued = if state.finished {
                state.io.len() == 1
            } else {
                !state.ready
            };
            &&& queued ==> s.made_ready(c) == seq![t]
            &&& !queued ==> s.made_ready(c).len() == 0
        }),
{
    op::tagged_data_comes_back(IoUserData { index: t, io_slot: x });
    let state = s.tasks[t as int]->Some_0;
    assert(s.tasks[t as int]->Some_0.io.no_duplicates());
    op::lemma_swap_removed(state.io, x);
    assert(x < s.io.len());
}

/// Completions are taken in one after the other: taking some in and then the
/// rest is the same as taking all of them in.
pub proof fn completions_come_in_order(s: Sched, a: Seq<Completion>, b: Seq<Completion>)
    ensures
        s.completions_seen(a + b) == s.completions_seen(a).completions_seen(b),
        s.all_made_ready(a + b) == s.all_made_ready(a) + s.completions_seen(a).all_made_ready(b),
        a.len() == 1 ==> s.completions_seen(a) == s.completion_seen(a[0]),
        a.len() == 1 ==> s.all_made_ready(a) == s.made_ready(a[0]),
        a.len() == 0 ==> s.completions_seen(a) == s && s.all_made_ready(a).len() == 0,
    decreases b.len(),
{
    if a.len() == 1 {
        reveal_with_fuel(Sched::completions_seen, 2);
        reveal_with_fuel(Sched::all_made_ready, 2);
        assert(a.drop_last() =~= Seq::empty());
        assert(s.all_made_ready(a) =~= s.made_ready(a[0]));
    }
    if b.len() == 0 {
        assert(a + b =~= a);
        assert(s.all_made_ready(a) + s.completions_seen(a).all_made_ready(b) =~= s.all_made_ready(
            a,
        ));
    } else {
        completions_come_in_order(s, a, b.drop_last());
        assert((a + b).drop_last() =~= a + b.drop_last());
        assert((a + b).last() == b.last());
        assert(s.all_made_ready(a + b) =~= s.all_made_ready(a) + s.completions_seen(
            a,
        ).all_made_ready(b));
    }
}

/// An operation begins in a clean slot: submitted, not completed, without a
/// result or a buffer. The slot freed last is used first, and the slab grows
/// only when none is free.
pub proof fn operation_begins_clean(s: Sched, t: int)
    requires
        balanced(s),
        s.has(t),
        s.io.len() < u32::MAX,
    ensures
        ({
            let r = s.op_started(t);
            let x = s.next_slot();
            let slot = r.io[x as int];
            &&& slot.submitted == 1 && slot.ready == 0 && slot.result == 0 && slot.bid == 0
            &&& s.free.len() > 0 ==> x == s.free.last() && r.io.len() == s.io.len()
                && r.free.len() == s.free.len() - 1
            &&& s.free.len() == 0 ==> x == s.io.len() && r.io.len() == s.io.len() + 1
            &&& forall|i: int| 0 <= i < s.io.len() && i != x ==> r.io[i] == s.io[i]
            &&& r.tasks[t] == Some(
                TaskState { io: s.tasks[t]->Some_0.io.push(x), ..s.tasks[t]->Some_0 },
            )
            &&& forall|u: int| 0 <= u < s.tasks.len() && u != t ==> r.tasks[u] == s.tasks[u]
            &&& r.wakeups == s.wakeups
        }),
{
    next_slot_is_unused(s);
    if s.free.len() > 0 {
        let x = s.free.last();
        assert(s.free[s.free.len() - 1] == x);
        assert(s.free.contains(x));
        assert(s.io[x as int].submitted == 0);
    }
}

/// A slot that was given back is the next to be used, and a slot is clean once
/// it was given back.
pub proof fn freed_slot_is_used_next(s: Sched, x: u32)
    requires
        x < s.io.len(),
    ensures
        s.slot_freed(x).next_slot() == x,
        s.slot_freed(x).free.len() == s.free.len() + 1,
        s.slot_freed(x).io[x as int].submitted == 0,
        s.slot_freed(x).io[x as int].ready == 0,
        s.slot_freed(x).io[x as int].bid == 0,
        s.slot_freed(x).io[x as int].result == 0,
        s.slot_freed(x).tasks == s.tasks,
        s.slot_freed(x).wakeups == s.wakeups,
{
}

/// The run is busy from the submission of an operation until its completion:
/// it is busy with an operation just submitted, and no longer once the only one
/// has completed.
pub proof fn busy_until_completed(s: Sched, t: u32, result: i32, flags: u32)
    requires
        balanced(s),
        s.has(t as int),
        s.io.len() < u32::MAX,
    ensures
        ({
            let mid = s.op_started(t as int);
            let c = Completion {
                user_data: (s.next_slot() * 0x1_0000_0000 + t) as u64,
                result,
                flags,
            };
            &&& mid.busy()
            &&& mid.completion_seen(c).busy() <==> s.busy()
        }),
{
    let x = s.next_slot();
    let mid = s.op_started(t as int);
    let c = Completion { user_data: (x * 0x1_0000_0000 + t) as u64, result, flags };
    let r = mid.completion_seen(c);
    submission_is_accounted(s, t as int);
    operation_begins_clean(s, t as int);
    next_slot_is_unused(s);
    assert(holds(mid, t as int, x));
    assert(mid.io[x as int].in_flight());
    op::tagged_data_comes_back(IoUserData { index: t, io_slot: x });
    assert(genuine(mid, c));
    completion_reaches_its_operation(mid, c);
    if s.busy() {
        let i = choose|i: int| 0 <= i < s.io.len() && (#[trigger] s.io[i]).in_flight();
        assert(i != x);
        assert(mid.io[i] == s.io[i]);
        assert(r.io[i] == mid.io[i]);
        assert(r.io[i].in_flight());
    }
    if r.busy() {
        let i = choose|i: int| 0 <= i < r.io.len() && (#[trigger] r.io[i]).in_flight();
        assert(r.io.len() == mid.io.len());
        assert(i != x);
        assert(r.io[i] == mid.io[i]);
        assert(mid.io[i] == s.io[i]);
        assert(s.io[i].in_flight());
    }
}

/// Each operation to be cancelled gets one request, in order, for as long as
/// the ring has room: the request names the operation by task and slot, and is
/// itself an operation of the same task.
pub proof fn cancel_requests_name_their_operations(
    s: Sched,
    t: u32,
    victims: Seq<u32>,
    room: int,
    k: int,
)
    requires
        s.has(t as int),
    ensures
        room >= victims.len() ==> s.cancels(t as int, victims, room).len() == victims.len(),
        0 <= room < victims.len() ==> s.cancels(t as int, victims, room).len() == room,
        room <= 0 ==> s.cancels(t as int, victims, room).len() == 0,
        0 <= k < s.cancels(t as int, victims, room).len() ==> {
            let request = s.cancels(t as int, victims, room)[k];
            &&& request.victim == victims[k] * 0x1_0000_0000 + t
            &&& request.user_data % 0x1_0000_0000 == t
            &&& k == 0 ==> request.user_data == s.next_slot() * 0x1_0000_0000 + t
        },
    decreases victims.len(),
{
    if victims.len() > 0 && room > 0 {
        let mid = s.cancel_pushed(t as int, true);
        cancel_requests_name_their_operations(mid, t, victims.skip(1), room - 1, k - 1);
    }
}

/// A request to cancel that the ring does not take leaves nothing behind: the
/// task holds what it held, and no operation is in flight that was not. One
/// that it takes is one more operation of the task.
pub proof fn refused_request_leaves_nothing(s: Sched, t: int, x: u32)
    requires
        balanced(s),
        s.has(t),
        s.io.len() < u32::MAX,
    ensures
        holds(s.cancel_pushed(t, false), t, x) <==> holds(s, t, x),
        holds(s.cancel_pushed(t, true), t, x) <==> holds(s, t, x) || x == s.next_slot(),
        s.cancel_pushed(t, true).io[s.next_slot() as int].in_flight(),
{
    submission_is_accounted(s, t);
    next_slot_is_unused(s);
    let mid = s.op_started(t);
    assert(holds(mid, t, s.next_slot()));
    release_is_accounted(mid, t, s.next_slot());
    assert(!holds(s, t, s.next_slot()));
}

/// A task that goes wakes the task that waits for it, and only that one. Its
/// slot is empty then, and nothing else changes.
pub proof fn removed_task_wakes_its_joiner(s: Sched, t: int)
    requires
        s.has(t),
    ensures
        ({
            let r = s.task_removed(t);
            let joiner = s.tasks[t]->Some_0.joiner;
            &&& !r.has(t)
            &&& joiner == 0xffff_ffffu32 ==> r.wakeups == s.wakeups
            &&& joiner != 0xffff_ffffu32 ==> r.wakeups == s.wakeups.push(joiner)
            &&& forall|u: int| 0 <= u < s.tasks.len() && u != t ==> r.tasks[u] == s.tasks[u]
            &&& r.tasks.len() == s.tasks.len() && r.io == s.io && r.free == s.free
        }),
{
}

/// A task that is done with an operation holds that slot no more and is
/// otherwise as it was, and so is every other task and every other slot.
pub proof fn ended_operation_concerns_one_slot(s: Sched, t: int, x: u32)
    requires
        s.has(t),
        x < s.io.len(),
    ensures
        ({
            let r = s.op_ended(t, x);
            &&& r.tasks.len() == s.tasks.len()
            &&& r.tasks[t] == Some(
                TaskState { io: r.tasks[t]->Some_0.io, ..s.tasks[t]->Some_0 },
            )
            &&& forall|u: int| 0 <= u < s.tasks.len() && u != t ==> r.tasks[u] == s.tasks[u]
            &&& forall|i: int| 0 <= i < s.io.len() && i != x ==> r.io[i] == s.io[i]
            &&& r.io.len() == s.io.len()
            &&& r.free == s.free.push(x)
            &&& r.wakeups == s.wakeups
        }),
{
}

/// Each request to cancel that the ring took is an operation of the task until
/// it completes, and one that it did not take is none: the task holds as many
/// slots more as the ring had room for, and still all that it held.
pub proof fn accepted_requests_are_held(s: Sched, t: int, victims: Seq<u32>, room: int)
    requires
        balanced(s),
        s.has(t),
        s.io.len() + victims.len() < u32::MAX,
    ensures
        ({
            let r = s.cancels_pushed(t, victims, room);
            let more = if room <= 0 {
                0
            } else if room < victims.len() {
                room
            } else {
                victims.len() as int
            };
            &&& r.has(t)
            &&& r.tasks[t]->Some_0.io.len() == s.tasks[t]->Some_0.io.len() + more
            &&& forall|x: u32| #[trigger] holds(s, t, x) ==> holds(r, t, x)
        }),
    decreases victims.len(),
{
    if victims.len() > 0 {
        let x = s.next_slot();
        let mid = s.op_started(t);
        let next = s.cancel_pushed(t, room > 0);
        submission_is_accounted(s, t);
        next_slot_is_unused(s);
        let io = mid.tasks[t]->Some_0.io;
        assert(io == s.tasks[t]->Some_0.io.push(x));
        assert(io[io.len() - 1] == x);
        assert(holds(mid, t, x));
        op::lemma_position(io, x);
        release_is_accounted(mid, t, x);
        assert(next.io.len() <= s.io.len() + 1);
        assert forall|y: u32| #[trigger] holds(s, t, y) implies holds(next, t, y) by {
            assert(holds(mid, t, y));
            if room <= 0 {
                assert(y != x);
                assert(holds(mid.op_ended(t, x), t, y));
            }
        }
        accepted_requests_are_held(next, t, victims.skip(1), room - 1);
        let r = s.cancels_pushed(t, victims, room);
        assert forall|y: u32| #[trigger] holds(s, t, y) implies holds(r, t, y) by {
            assert(holds(next, t, y));
        }
    }
}

} // verus!
