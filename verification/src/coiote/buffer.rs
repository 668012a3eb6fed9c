//! Buffers of operations in flight. The task's arena keeps a place for the
//! buffer while the kernel uses it, and the buffer comes back with the result.

use vstd::prelude::*;

use crate::coio::arena::ArenaAlloc;
use crate::coio::arena::Block;
use crate::coio::arena::Layout;
use crate::coio::classes;
use crate::coiote::io_state;
use crate::coiote::runtime;
use crate::coiote::task::Task;

verus! {

/// The size of the place that an owned buffer takes: pointer, capacity and
/// length.
pub const VEC_PLACE: usize = 24;

/// The size of the place that a borrowed buffer takes: pointer and length.
pub const SLICE_PLACE: usize = 16;

/// The alignment of either.
pub const PLACE_ALIGN: u32 = 8;

/// Whether a place of `size` bytes fits into the task's arena.
pub open spec fn place_fits(task: Task, size: int) -> bool {
    classes::align_up(task.arena.top(), PLACE_ALIGN as int) + size
        + crate::coio::arena::FOOTER_SIZE <= task.arena.limit()
}

/// Whether every operation of the task is in flight.
pub open spec fn all_in_flight(task: Task) -> bool {
    !task.io.on_heap() && forall|j: int|
        0 <= j < io_state::INLINE_SLOTS ==> #[trigger] task.io.in_flight(j)
}

/// The place of `size` bytes that the task's arena gives next.
pub open spec fn next_place(task: Task, size: int) -> ArenaAlloc {
    ArenaAlloc {
        offset: classes::align_up(task.arena.top(), PLACE_ALIGN as int) as u32,
        size: size as u32,
    }
}

/// Operation `slot` was the lowest one free; it is in flight now, and its
/// buffer has the arena's next place of `size` bytes. Nothing else changed.
pub open spec fn prepared(before: Task, after: Task, slot: u32, size: int) -> bool {
    let place = next_place(before, size);
    &&& !before.io.in_flight(slot as int)
    &&& forall|j: int| 0 <= j < slot ==> #[trigger] before.io.in_flight(j)
    &&& forall|i: int|
        #![trigger after.io.in_flight(i)]
        after.io.in_flight(i) == (i == slot || before.io.in_flight(i))
    &&& forall|i: int| #![trigger after.io.done(i)] after.io.done(i) == before.io.done(i)
    &&& after.io.results() == before.io.results()
    &&& after.io.on_heap() == before.io.on_heap()
    &&& after.io.blocks() == io_state::put(before.io.blocks(), slot as int, Some(place), None)
    &&& after.arena.limit() == before.arena.limit()
    &&& after.arena.blocks() == before.arena.blocks().push(
        Block { start: before.arena.top(), end: place.offset + size, dead: false },
    )
    &&& after.arena.holds(place)
    &&& after.ready == before.ready
    &&& after.inflight == before.inflight
}

/// What preparing an operation does when there is no room for its buffer: the
/// operation's number stays taken, or is given back. Nothing else changed.
pub open spec fn unprepared(before: Task, after: Task, kept: bool) -> bool {
    &&& after.arena == before.arena
    &&& forall|i: int| #![trigger after.io.done(i)] after.io.done(i) == before.io.done(i)
    &&& after.io.results() == before.io.results()
    &&& after.io.on_heap() == before.io.on_heap()
    &&& after.io.blocks() == before.io.blocks()
    &&& after.ready == before.ready
    &&& after.inflight == before.inflight
    &&& exists|slot: u32|
        {
            &&& !#[trigger] before.io.in_flight(slot as int)
            &&& forall|j: int| 0 <= j < slot ==> #[trigger] before.io.in_flight(j)
            &&& forall|i: int|
                #![trigger after.io.in_flight(i)]
                after.io.in_flight(i) == ((kept && i == slot) || before.io.in_flight(i))
        }
}

/// Takes the next operation of `task` and a place of `size` bytes. When there
/// is no room, the operation's number is given back if `undo` is set.
fn prepare(task: &mut Task, size: usize, undo: bool) -> (slot: Option<u32>)
    requires
        old(task).wf(),
        old(task).io.room() < 0x1_0000_0000,
        0 < size <= 64,
        old(task).arena.can_ask(size as int, PLACE_ALIGN as int),
    ensures
        final(task).wf(),
        match slot {
            Some(s) => prepared(*old(task), *final(task), s, size as int) && place_fits(
                *old(task),
                size as int,
            ),
            None => {
                ||| all_in_flight(*old(task)) && *final(task) == *old(task)
                ||| !place_fits(*old(task), size as int) && unprepared(
                    *old(task),
                    *final(task),
                    !undo,
                )
            },
        },
{
    let slot: u32 = match task.io.free_slot() {
        Some(slot) => slot,
        None => return None,
    };
    task.io.set_submitted(slot, true);
    assert(classes::power_of_two(8)) by {
        assert(8u32 & 7u32 == 0) by (bit_vector);
    }
    let layout: Layout = Layout::from_size_align(size, PLACE_ALIGN).unwrap();
    let block: ArenaAlloc = match task.arena.allocate(layout) {
        Some(block) => block,
        None => {
            if undo {
                task.io.set_submitted(slot, false);
            }
            assert(!old(task).io.in_flight(slot as int));
            return None;
        },
    };
    task.io.set_alloc(slot, block);
    Some(slot)
}

/// Takes the buffer of a completed operation back and frees its place.
fn complete<B>(task: &mut Task, held: &mut Vec<Option<B>>, slot: u32) -> (buffer: Option<B>)
    requires
        old(task).wf(),
        io_state::at(old(task).io.blocks(), slot as int) matches Some(a) && old(
            task,
        ).arena.holds(a),
    ensures
        final(task).wf(),
        buffer == io_state::at(old(held)@, slot as int),
        final(held)@ == if slot < old(held)@.len() {
            old(held)@.update(slot as int, None)
        } else {
            old(held)@
        },
        finished(*old(task), *final(task), slot),
{
    let block: ArenaAlloc = task.io.take_alloc(slot);
    task.arena.dealloc(block);
    task.io.set_submitted(slot, false);
    task.io.set_ready(slot, false);
    if (slot as usize) < held.len() {
        let buffer: Option<B> = held[slot as usize].take();
        assert(held@ =~= old(held)@.update(slot as int, None));
        buffer
    } else {
        None
    }
}

/// Operation `slot` is neither in flight nor done any more, and its place was
/// given back.
pub open spec fn finished(before: Task, after: Task, slot: u32) -> bool {
    &&& forall|i: int|
        #![trigger after.io.in_flight(i)]
        after.io.in_flight(i) == (i != slot && before.io.in_flight(i))
    &&& forall|i: int|
        #![trigger after.io.done(i)]
        after.io.done(i) == (i != slot && before.io.done(i))
    &&& after.io.results() == before.io.results()
    &&& after.io.on_heap() == (before.io.on_heap() || slot >= io_state::INLINE_SLOTS)
    &&& after.io.blocks() == before.io.blocks().update(slot as int, None)
    &&& after.ready == before.ready
    &&& after.inflight == before.inflight
    &&& runtime::given_back(
        before.arena,
        after.arena,
        before.io.blocks()[slot as int]->Some_0,
    )
}

/// Puts `buffer` at place `slot` of `held`.
fn keep<B>(held: &mut Vec<Option<B>>, slot: u32, buffer: B)
    ensures
        final(held)@ == io_state::put(old(held)@, slot as int, Some(buffer), None),
{
    let ghost before = held@;
    while held.len() <= slot as usize
        invariant
            held@.len() >= before.len(),
            held@.len() <= slot + 1 || held@.len() == before.len(),
            forall|i: int|
                0 <= i < held@.len() ==> #[trigger] held@[i] == if i < before.len() {
                    before[i]
                } else {
                    None
                },
        decreases slot + 1 - held@.len(),
    {
        held.push(None);
    }
    held.set(slot as usize, Some(buffer));
    assert(held@ =~= io_state::put(before, slot as int, Some(buffer), None));
}

/// A buffer that a read fills.
pub trait IoReadBuffer: Sized {
    /// The size of the place that the buffer takes.
    spec fn place() -> int;

    /// Prepares a read into this buffer, which is kept in `held`.
    fn prepare_read(self, task: &mut Task, held: &mut Vec<Option<Self>>) -> (slot: Option<u32>)
        requires
            old(task).wf(),
            old(task).io.room() < 0x1_0000_0000,
            old(task).arena.can_ask(Self::place(), PLACE_ALIGN as int),
        ensures
            final(task).wf(),
            match slot {
                Some(s) => {
                    &&& prepared(*old(task), *final(task), s, Self::place())
                    &&& place_fits(*old(task), Self::place())
                    &&& final(held)@ == io_state::put(old(held)@, s as int, Some(self), None)
                },
                None => {
                    &&& final(held)@ == old(held)@
                    &&& {
                        ||| all_in_flight(*old(task)) && *final(task) == *old(task)
                        ||| !place_fits(*old(task), Self::place()) && unprepared(
                            *old(task),
                            *final(task),
                            true,
                        )
                    }
                },
            },
    ;
}

/// A buffer that a write sends.
pub trait IoWriteBuffer: Sized {
    /// The size of the place that the buffer takes.
    spec fn place() -> int;

    /// Prepares a write of this buffer, which is kept in `held`. When there is
    /// no room, the operation's number is given back.
    fn prepare_write(self, task: &mut Task, held: &mut Vec<Option<Self>>) -> (slot: Option<u32>)
        requires
            old(task).wf(),
            old(task).io.room() < 0x1_0000_0000,
            old(task).arena.can_ask(Self::place(), PLACE_ALIGN as int),
        ensures
            final(task).wf(),
            match slot {
                Some(s) => {
                    &&& prepared(*old(task), *final(task), s, Self::place())
                    &&& place_fits(*old(task), Self::place())
                    &&& final(held)@ == io_state::put(old(held)@, s as int, Some(self), None)
                },
                None => {
                    &&& final(held)@ == old(held)@
                    &&& {
                        ||| all_in_flight(*old(task)) && *final(task) == *old(task)
                        ||| !place_fits(*old(task), Self::place()) && unprepared(
                            *old(task),
                            *final(task),
                            false,
                        )
                    }
                },
            },
    ;
}

impl IoReadBuffer for Vec<u8> {
    open spec fn place() -> int {
        VEC_PLACE as int
    }

    fn prepare_read(self, task: &mut Task, held: &mut Vec<Option<Self>>) -> (slot: Option<u32>) {
        match prepare(task, VEC_PLACE, false) {
            Some(slot) => {
                keep(held, slot, self);
                Some(slot)
            },
            None => None,
        }
    }
}

impl IoWriteBuffer for Vec<u8> {
    open spec fn place() -> int {
        VEC_PLACE as int
    }

    fn prepare_write(self, task: &mut Task, held: &mut Vec<Option<Self>>) -> (slot: Option<u32>) {
        match prepare(task, VEC_PLACE, true) {
            Some(slot) => {
                keep(held, slot, self);
                Some(slot)
            },
            None => None,
        }
    }
}

impl<'a> IoWriteBuffer for &'a [u8] {
    open spec fn place() -> int {
        SLICE_PLACE as int
    }

    fn prepare_write(self, task: &mut Task, held: &mut Vec<Option<Self>>) -> (slot: Option<u32>) {
        match prepare(task, SLICE_PLACE, true) {
            Some(slot) => {
                keep(held, slot, self);
                Some(slot)
            },
            None => None,
        }
    }
}

/// Takes the buffer of a completed read back.
pub fn complete_read<B>(task: &mut Task, held: &mut Vec<Option<B>>, slot: u32) -> (buffer: Option<
    B,
>)
    requires
        old(task).wf(),
        io_state::at(old(task).io.blocks(), slot as int) matches Some(a) && old(
            task,
        ).arena.holds(a),
    ensures
        final(task).wf(),
        buffer == io_state::at(old(held)@, slot as int),
        final(held)@ == if slot < old(held)@.len() {
            old(held)@.update(slot as int, None)
        } else {
            old(held)@
        },
        finished(*old(task), *final(task), slot),
{
    complete(task, held, slot)
}

/// Takes the buffer of a completed write back.
pub fn complete_write<B>(task: &mut Task, held: &mut Vec<Option<B>>, slot: u32) -> (buffer: Option<
    B,
>)
    requires
        old(task).wf(),
        io_state::at(old(task).io.blocks(), slot as int) matches Some(a) && old(
            task,
        ).arena.holds(a),
    ensures
        final(task).wf(),
        buffer == io_state::at(old(held)@, slot as int),
        final(held)@ == if slot < old(held)@.len() {
            old(held)@.update(slot as int, None)
        } else {
            old(held)@
        },
        finished(*old(task), *final(task), slot),
{
    complete(task, held, slot)
}

/// Completing an operation undoes its preparation: it is no longer in flight,
/// and its place is free again.
pub proof fn completion_undoes_preparation(
    before: Task,
    during: Task,
    after: Task,
    slot: u32,
    size: int,
)
    requires
        before.wf(),
        during.wf(),
        place_fits(before, size),
        0 < size <= 64,
        before.arena.can_ask(size, PLACE_ALIGN as int),
        prepared(before, during, slot, size),
        finished(during, after, slot),
    ensures
        forall|i: int| #![trigger after.io.in_flight(i)] after.io.in_flight(i)
            == before.io.in_flight(i),
        after.arena.blocks() == before.arena.blocks(),
        after.arena.limit() == before.arena.limit(),
        after.io.results() == before.io.results(),
        after.ready == before.ready,
        after.inflight == before.inflight,
{
    let place = next_place(before, size);
    let all = during.arena.blocks();
    let n = before.arena.blocks().len() as int;
    before.arena.blocks_are_stacked();
    during.arena.blocks_are_stacked();
    assert(during.io.blocks()[slot as int] == Some(place));
    let k = choose|k: int|
        {
            &&& #[trigger] during.arena.is_block(place, k)
            &&& after.arena.limit() == during.arena.limit()
            &&& after.arena.blocks() == crate::coio::arena::trimmed(
                all.update(k, Block { dead: true, ..all[k] }),
            )
        };
    assert(k == n) by {
        if k < n {
            assert(all[k].end + crate::coio::arena::FOOTER_SIZE <= all[n].start);
        }
    }
    crate::coio::arena::allocation_is_undone(before.arena, all[n]);
    assert(all.update(k, Block { dead: true, ..all[k] }) =~= before.arena.blocks().push(
        Block { dead: true, ..all[n] },
    ));
}

/// A buffer comes back as it was handed in.
pub proof fn buffers_come_back<B>(held: Seq<Option<B>>, slot: u32, buffer: B)
    ensures
        io_state::at(io_state::put(held, slot as int, Some(buffer), None), slot as int) == Some(
            buffer,
        ),
{
}

/// An operation that is prepared gets the lowest number that is not in flight,
/// and is in flight then; no other operation changes. Its buffer gets the first
/// place above all blocks of the arena whose offset is a multiple of eight.
pub proof fn preparation_takes_the_lowest_number(
    before: Task,
    after: Task,
    slot: u32,
    size: int,
    other: int,
)
    requires
        before.wf(),
        prepared(before, after, slot, size),
        place_fits(before, size),
        before.arena.can_ask(size, PLACE_ALIGN as int),
        0 < size <= 64,
        0 <= other,
    ensures
        ({
            let place = next_place(before, size);
            &&& after.io.in_flight(slot as int) && !before.io.in_flight(slot as int)
            &&& !before.io.in_flight(other) ==> slot <= other
            &&& other != slot ==> after.io.in_flight(other) == before.io.in_flight(other)
            &&& io_state::at(after.io.blocks(), slot as int) == Some(place)
            &&& other != slot ==> io_state::at(after.io.blocks(), other) == io_state::at(
                before.io.blocks(),
                other,
            )
            &&& place.offset % 8 == 0 && place.size == size
            &&& before.arena.top() <= place.offset < before.arena.top() + 8
        }),
{
    before.arena.blocks_are_stacked();
    classes::lemma_align_up(before.arena.top(), PLACE_ALIGN as int);
    if !before.io.in_flight(other) && other < slot {
        assert(before.io.in_flight(other));
    }
}

/// An owned buffer takes a place of 24 bytes, a borrowed one of 16.
pub proof fn place_sizes()
    ensures
        <Vec<u8> as IoReadBuffer>::place() == 24,
        <Vec<u8> as IoWriteBuffer>::place() == 24,
        <&[u8] as IoWriteBuffer>::place() == 16,
        PLACE_ALIGN == 8,
{
}

/// An operation that found no place for its buffer leaves the arena, the
/// results and all other operations alone. Its number, the lowest that was not
/// in flight, stays taken or is given back.
pub proof fn lacking_place_changes_one_number(
    before: Task,
    after: Task,
    kept: bool,
    i: int,
)
    requires
        unprepared(before, after, kept),
        0 <= i,
    ensures
        after.arena == before.arena,
        after.io.results() == before.io.results(),
        after.io.blocks() == before.io.blocks(),
        after.io.done(i) == before.io.done(i),
        !kept ==> after.io.in_flight(i) == before.io.in_flight(i),
        before.io.in_flight(i) ==> after.io.in_flight(i),
        kept && !before.io.in_flight(i) && (forall|j: int|
            0 <= j < i ==> #[trigger] before.io.in_flight(j)) && i <= u32::MAX
            ==> after.io.in_flight(i),
        after.ready == before.ready,
{
    let slot = choose|slot: u32|
        {
            &&& !#[trigger] before.io.in_flight(slot as int)
            &&& forall|j: int| 0 <= j < slot ==> #[trigger] before.io.in_flight(j)
            &&& forall|i: int|
                #![trigger after.io.in_flight(i)]
                after.io.in_flight(i) == ((kept && i == slot) || before.io.in_flight(i))
        };
    if kept && !before.io.in_flight(i) && (forall|j: int|
        0 <= j < i ==> #[trigger] before.io.in_flight(j)) {
        if slot < i {
            assert(before.io.in_flight(slot as int));
        } else if i < slot {
            assert(before.io.in_flight(i));
        }
    }
}

/// All operations are in flight exactly when the sixty-four inline ones are and
/// there is no heap to take more from.
pub proof fn all_in_flight_means_sixty_four(task: Task)
    ensures
        all_in_flight(task) <==> !task.io.on_heap() && forall|j: int|
            0 <= j < 64 ==> #[trigger] task.io.in_flight(j),
{
}

/// Preparing an operation touches no result and no other operation's state, and
/// finishing it leaves it neither in flight nor done, again without touching
/// another.
pub proof fn operations_are_separate(
    before: Task,
    during: Task,
    after: Task,
    slot: u32,
    size: int,
    i: int,
)
    requires
        prepared(before, during, slot, size),
        finished(during, after, slot),
    ensures
        during.io.done(i) == before.io.done(i),
        during.io.results() == before.io.results(),
        during.io.on_heap() == before.io.on_heap(),
        during.ready == before.ready && during.inflight == before.inflight,
        during.arena.limit() == before.arena.limit(),
        !after.io.in_flight(slot as int) && !after.io.done(slot as int),
        i != slot ==> after.io.in_flight(i) == during.io.in_flight(i) && after.io.done(i)
            == during.io.done(i),
        after.io.results() == during.io.results(),
        0 <= slot < during.io.blocks().len() ==> after.io.blocks()[slot as int] is None,
        after.ready == during.ready && after.inflight == during.inflight,
{
}

/// A task's arena has 4096 bytes.
pub proof fn task_arena_size()
    ensures
        runtime::TASK_ARENA == 4096,
{
}

} // verus!
