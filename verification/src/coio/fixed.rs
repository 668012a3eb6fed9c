//! One size class of the fixed buffer pool.

use vstd::layout::size_of;
use vstd::prelude::*;

use crate::coio::buf::Bytes;
use crate::coio::buf::BytesMut;
use crate::coio::buf::Handle;
use crate::coio::buf::Ref;
use crate::coio::buf::RefMut;
use crate::coio::buf::Slice;
use crate::coio::buf::SliceMut;
use crate::coio::classes;
use crate::coio::pool;
use crate::coio::pool::Shape;
use crate::coio::pool::Slab;
use crate::coio::tracker;
use crate::coio::tracker::BorrowTracker;

verus! {

/// Slots of one size, handed out from a stack of free ones.
pub struct FixedSlab {
    size: u32,
    class: u8,
    base: usize,
    free: Vec<u32>,
    pub tracker: BorrowTracker,
}

/// `n - 1`, `n - 2`, ..., `0`.
pub open spec fn countdown(n: nat) -> Seq<u32> {
    Seq::new(n, |i: int| (n - 1 - i) as u32)
}

impl FixedSlab {
    /// The free slots; the last one is handed out next.
    pub closed spec fn free_stack(&self) -> Seq<u32> {
        self.free@
    }

    /// What a view of the whole slot `local` names.
    pub open spec fn handle_of(&self, local: u32, generation: u32) -> Handle {
        Handle {
            provided: false,
            bid: classes::packed(self.shape().class as u32, local),
            generation,
            offset: 0,
        }
    }

    /// Creates `count` free slots of `size` bytes from `base` on. The first
    /// slot handed out will be slot 0.
    pub fn new(base: usize, size: u32, count: u32, class: u8) -> (slab: Self)
        requires
            size > 0,
            0 < count <= classes::BID_LOCAL_MASK,
            base + count * size <= usize::MAX,
        ensures
            slab.wf(),
            slab.shape() == (Shape { base, size, class }),
            slab.counts().len() == count,
            forall|i: int| 0 <= i < count ==> #[trigger] slab.counts()[i] == 0,
            slab.free_stack() == countdown(count as nat),
    {
        let mut free: Vec<u32> = Vec::with_capacity(count as usize);
        let mut left: u32 = count;
        while left > 0
            invariant
                left <= count,
                free@ == countdown(count as nat).take(count - left),
            decreases left,
        {
            left = left - 1;
            free.push(left);
            assert(free@ =~= countdown(count as nat).take(count - left));
        }
        assert(free@ =~= countdown(count as nat));
        let slab = FixedSlab {
            size,
            class,
            base,
            free,
            tracker: BorrowTracker::new(count as usize),
        };
        assert forall|l: u32| slab.free@.contains(l) <==> (l < slab.tracker@.len()
            && slab.tracker@[l as int] == 0) by {
            if l < count {
                assert(slab.free@[count - 1 - l] == l);
            }
        }
        slab
    }

    /// Free slots are slots of the slab, and nobody holds them.
    pub proof fn free_slots_exist(&self)
        requires
            self.wf(),
        ensures
            forall|i: int|
                0 <= i < self.free_stack().len() ==> (#[trigger] self.free_stack()[i])
                    < self.counts().len() && self.counts()[self.free_stack()[i] as int] == 0,
            self.counts().len() <= classes::BID_LOCAL_MASK,
            self.free_stack().no_duplicates(),
            forall|l: u32|
                l < self.counts().len() && #[trigger] self.counts()[l as int] == 0
                    ==> self.free_stack().contains(l),
    {
        assert forall|i: int| 0 <= i < self.free_stack().len() implies (
        #[trigger] self.free_stack()[i]) < self.counts().len() && self.counts()[
            self.free_stack()[i] as int
        ] == 0 by {
            assert(self.free@.contains(self.free@[i]));
        }
        assert forall|l: u32|
            l < self.counts().len() && #[trigger] self.counts()[l as int] == 0 implies
            self.free_stack().contains(l) by {
            assert(self.free@.contains(l));
        }
    }

    /// The number of free slots.
    pub fn free_count(&self) -> (n: usize)
        ensures
            n == self.free_stack().len(),
    {
        self.free.len()
    }

    fn pop(&mut self) -> (local: Option<u32>)
        requires
            old(self).wf(),
        ensures
            match local {
                Some(l) => {
                    &&& old(self).free@.len() > 0
                    &&& l == old(self).free@.last()
                    &&& final(self).free@ == old(self).free@.drop_last()
                    &&& l < old(self).tracker@.len()
                    &&& old(self).tracker@[l as int] == 0
                    &&& !final(self).free@.contains(l)
                    &&& final(self).tracker == old(self).tracker
                    &&& final(self).size == old(self).size
                    &&& final(self).class == old(self).class
                    &&& final(self).base == old(self).base
                    &&& forall|k: u32| k != l ==> (#[trigger] final(self).free@.contains(k) <==> old(
                        self,
                    ).free@.contains(k))
                },
                None => old(self).free@.len() == 0 && *final(self) == *old(self),
            },
    {
        if self.free.len() == 0 {
            return None;
        }
        let ghost before = self.free@;
        let local: Option<u32> = self.free.pop();
        if let Some(l) = local {
            proof {
                let n = before.len() - 1;
                assert(before[n] == l);
                assert(before.contains(l));
                assert(self.free@ =~= before.drop_last());
                assert forall|k: u32| k != l implies (#[trigger] self.free@.contains(k)
                    <==> before.contains(k)) by {
                    if before.contains(k) {
                        let i = choose|i: int| 0 <= i < before.len() && before[i] == k;
                        assert(self.free@[i] == k);
                    }
                    if self.free@.contains(k) {
                        let i = choose|i: int| 0 <= i < self.free@.len() && self.free@[i] == k;
                        assert(before[i] == k);
                    }
                }
                if self.free@.contains(l) {
                    let i = choose|i: int| 0 <= i < self.free@.len() && self.free@[i] == l;
                    assert(before[i] == before[n]);
                }
            }
        }
        local
    }

    /// Takes a free slot for an exclusive view.
    pub fn acquire_slot(&mut self) -> (local: Option<u32>)
        requires
            old(self).wf(),
        ensures
            final(self).wf(),
            final(self).shape() == old(self).shape(),
            match local {
                Some(l) => {
                    &&& old(self).free_stack().len() > 0
                    &&& l == old(self).free_stack().last()
                    &&& final(self).free_stack() == old(self).free_stack().drop_last()
                    &&& l < old(self).counts().len()
                    &&& old(self).counts()[l as int] == 0
                    &&& final(self).counts() == old(self).counts().update(l as int, -1i32)
                },
                None => old(self).free_stack().len() == 0 && *final(self) == *old(self),
            },
    {
        match self.pop() {
            Some(l) => {
                self.tracker.take_exclusive(l);
                Some(l)
            },
            None => None,
        }
    }

    /// Takes a free slot for a shared view.
    pub fn acquire_slot_shared(&mut self) -> (local: Option<u32>)
        requires
            old(self).wf(),
        ensures
            final(self).wf(),
            final(self).shape() == old(self).shape(),
            match local {
                Some(l) => {
                    &&& old(self).free_stack().len() > 0
                    &&& l == old(self).free_stack().last()
                    &&& final(self).free_stack() == old(self).free_stack().drop_last()
                    &&& l < old(self).counts().len()
                    &&& old(self).counts()[l as int] == 0
                    &&& final(self).counts() == old(self).counts().update(l as int, 1i32)
                },
                None => old(self).free_stack().len() == 0 && *final(self) == *old(self),
            },
    {
        match self.pop() {
            Some(l) => {
                self.tracker.take_shared(l);
                Some(l)
            },
            None => None,
        }
    }

    fn handle(&self, local: u32, generation: u32) -> (at: Handle)
        requires
            self.wf(),
            local < self.counts().len(),
        ensures
            at == self.handle_of(local, generation),
    {
        Handle {
            provided: false,
            bid: classes::pack_bid(self.class as u32, local),
            generation,
            offset: 0,
        }
    }

    /// What every acquisition of a view does: the next free slot becomes held
    /// with `count`, and `at` names it whole.
    pub open spec fn acquired(before: Self, after: Self, at: Handle, generation: u32, count: i32) -> bool {
        let l = before.free_stack().last();
        &&& before.free_stack().len() > 0
        &&& after.free_stack() == before.free_stack().drop_last()
        &&& before.counts()[l as int] == 0
        &&& after.counts() == before.counts().update(l as int, count)
        &&& at == before.handle_of(l, generation)
    }

    /// A shared view of a fresh slot.
    pub fn acquire_ref<T>(&mut self, generation: u32) -> (view: Option<Ref<T>>)
        requires
            old(self).wf(),
            size_of::<T>() > 0,
        ensures
            final(self).wf(),
            final(self).shape() == old(self).shape(),
            match view {
                Some(v) => FixedSlab::acquired(*old(self), *final(self), v@, generation, 1),
                None => old(self).free_stack().len() == 0 && *final(self) == *old(self),
            },
    {
        match self.acquire_slot_shared() {
            Some(l) => Some(Ref::new(self.handle(l, generation))),
            None => None,
        }
    }

    /// An exclusive view of a fresh slot.
    pub fn acquire_mut<T>(&mut self, generation: u32) -> (view: Option<RefMut<T>>)
        requires
            old(self).wf(),
            size_of::<T>() > 0,
        ensures
            final(self).wf(),
            final(self).shape() == old(self).shape(),
            match view {
                Some(v) => FixedSlab::acquired(*old(self), *final(self), v@, generation, -1i32),
                None => old(self).free_stack().len() == 0 && *final(self) == *old(self),
            },
    {
        match self.acquire_slot() {
            Some(l) => Some(RefMut::new(self.handle(l, generation))),
            None => None,
        }
    }

    /// A shared view of a fresh slot, as many elements as fit.
    pub fn acquire_slice<T>(&mut self, generation: u32) -> (view: Option<Slice<T>>)
        requires
            old(self).wf(),
            0 < size_of::<T>() <= u32::MAX,
        ensures
            final(self).wf(),
            final(self).shape() == old(self).shape(),
            match view {
                Some(v) => FixedSlab::acquired(*old(self), *final(self), v@.at, generation, 1)
                    && v@.len == old(self).shape().size as int / size_of::<T>() as int,
                None => old(self).free_stack().len() == 0 && *final(self) == *old(self),
            },
    {
        let elements: u32 = self.size / core::mem::size_of::<T>() as u32;
        match self.acquire_slot_shared() {
            Some(l) => Some(Slice::new(Ref::new(self.handle(l, generation)), elements)),
            None => None,
        }
    }

    /// An exclusive view of a fresh slot, as many elements as fit.
    pub fn acquire_slice_mut<T>(&mut self, generation: u32) -> (view: Option<SliceMut<T>>)
        requires
            old(self).wf(),
            0 < size_of::<T>() <= u32::MAX,
        ensures
            final(self).wf(),
            final(self).shape() == old(self).shape(),
            match view {
                Some(v) => FixedSlab::acquired(*old(self), *final(self), v@.at, generation, -1i32)
                    && v@.len == old(self).shape().size as int / size_of::<T>() as int
                    && v.limit() is None,
                None => old(self).free_stack().len() == 0 && *final(self) == *old(self),
            },
    {
        let elements: u32 = self.size / core::mem::size_of::<T>() as u32;
        match self.acquire_slot() {
            Some(l) => Some(SliceMut::new(RefMut::new(self.handle(l, generation)), elements)),
            None => None,
        }
    }

    /// A shared view of all bytes of a fresh slot.
    pub fn acquire_bytes(&mut self, generation: u32) -> (view: Option<Bytes>)
        requires
            old(self).wf(),
        ensures
            final(self).wf(),
            final(self).shape() == old(self).shape(),
            match view {
                Some(v) => FixedSlab::acquired(*old(self), *final(self), v@.at, generation, 1)
                    && v@.len == old(self).shape().size,
                None => old(self).free_stack().len() == 0 && *final(self) == *old(self),
            },
    {
        broadcast use vstd::layout::layout_of_primitives;

        self.acquire_slice::<u8>(generation)
    }

    /// An exclusive view of all bytes of a fresh slot.
    pub fn acquire_bytes_mut(&mut self, generation: u32) -> (view: Option<BytesMut>)
        requires
            old(self).wf(),
        ensures
            final(self).wf(),
            final(self).shape() == old(self).shape(),
            match view {
                Some(v) => FixedSlab::acquired(*old(self), *final(self), v@.at, generation, -1i32)
                    && v@.len == old(self).shape().size && v.limit() is None,
                None => old(self).free_stack().len() == 0 && *final(self) == *old(self),
            },
    {
        broadcast use vstd::layout::layout_of_primitives;

        self.acquire_slice_mut::<u8>(generation)
    }

    /// The bytes of slot `local` within `memory`.
    pub fn get_slice_mut<'a>(&self, memory: &'a mut Vec<u8>, local: u32) -> (slot: &'a mut [u8])
        requires
            self.wf(),
            local < self.counts().len(),
            self.shape().slot_start(self.counts().len() as int) <= old(memory)@.len(),
        ensures
            ({
                let start = self.shape().slot_start(local as int);
                let size = self.shape().size as int;
                &&& slot@ == old(memory)@.subrange(start, start + size)
                &&& final(memory)@ == old(memory)@.take(start) + final(slot)@ + old(memory)@.skip(
                    start + size,
                )
            }),
    {
        let start: usize = pool::slot_offset(self, local);
        let size: usize = self.size as usize;
        let all: &mut [u8] = memory.as_mut_slice();
        let (_before, rest) = all.split_at_mut(start);
        let (slot, _after) = rest.split_at_mut(size);
        slot
    }
}

impl Slab for FixedSlab {
    closed spec fn wf(&self) -> bool {
        &&& self.size > 0
        &&& 0 < self.tracker@.len() <= classes::BID_LOCAL_MASK
        &&& self.base + self.tracker@.len() * self.size <= usize::MAX
        &&& self.free@.no_duplicates()
        &&& forall|l: u32| #[trigger]
            self.free@.contains(l) <==> (l < self.tracker@.len() && self.tracker@[l as int] == 0)
    }

    closed spec fn counts(&self) -> Seq<i32> {
        self.tracker@
    }

    closed spec fn shape(&self) -> Shape {
        Shape { base: self.base, size: self.size, class: self.class }
    }

    open spec fn same_stock(&self, other: &Self) -> bool {
        self.free_stack() == other.free_stack()
    }

    open spec fn put_back(&self, other: &Self, local: u32) -> bool {
        self.free_stack() == other.free_stack().push(local)
    }

    proof fn slots_fit(&self) {
    }

    fn slot_size(&self) -> u32 {
        self.size
    }

    fn base(&self) -> usize {
        self.base
    }

    fn slot_count(&self) -> usize {
        self.tracker.slot_count()
    }

    fn clone_shared(&mut self, local: u32) {
        self.tracker.clone_shared(local);
    }

    fn split_exclusive(&mut self, local: u32) {
        self.tracker.split_exclusive(local);
    }

    fn upgrade(&mut self, local: u32) {
        self.tracker.upgrade(local);
    }

    fn downgrade(&mut self, local: u32) {
        self.tracker.downgrade(local);
    }

    fn drop_view(&mut self, exclusive: bool, local: u32) {
        let ghost before = self.free@;
        let ghost counts = self.tracker@;
        assert(!before.contains(local));
        if self.tracker.drop_view(exclusive, local) {
            self.free.push(local);
            proof {
                assert forall|l: u32| #[trigger] self.free@.contains(l) <==> (l
                    < self.tracker@.len() && self.tracker@[l as int] == 0) by {
                    if l == local {
                        assert(self.free@[before.len() as int] == local);
                    } else {
                        if before.contains(l) {
                            let i = choose|i: int| 0 <= i < before.len() && before[i] == l;
                            assert(self.free@[i] == l);
                        }
                        if self.free@.contains(l) {
                            let i = choose|i: int|
                                0 <= i < self.free@.len() && self.free@[i] == l;
                            assert(before[i] == l);
                        }
                    }
                }
            }
        }
    }
}

/// Slots are handed out in order: after `n` acquisitions from a fresh slab the
/// next one is slot `n`.
pub proof fn fresh_slots_come_in_order(count: nat, n: nat)
    requires
        n < count <= u32::MAX,
    ensures
        countdown(count).take(count - n).last() == n,
{
}

/// A view of a fresh slot names it from its first byte on, under its class and
/// number.
pub proof fn fresh_view_names_its_slot(slab: FixedSlab, local: u32, generation: u32)
    requires
        local < 16777216,
    ensures
        ({
            let h = slab.handle_of(local, generation);
            &&& !h.provided && h.offset == 0 && h.generation == generation
            &&& h.bid == slab.shape().class * 16777216 + local
        }),
{
    classes::buffer_id_layout(slab.shape().class as u32, local);
}

/// Taking a slot takes one that is free, and that one alone: it is held as
/// asked for, no longer free, and no other slot changes hands.
pub proof fn taken_slot_was_free(
    before: FixedSlab,
    after: FixedSlab,
    at: Handle,
    generation: u32,
    count: i32,
    other: int,
)
    requires
        before.wf(),
        FixedSlab::acquired(before, after, at, generation, count),
        0 <= other < before.counts().len(),
    ensures
        ({
            let l = before.free_stack().last();
            &&& l < before.counts().len()
            &&& at.bid == before.shape().class * 16777216 + l
            &&& before.counts()[l as int] == 0 && after.counts()[l as int] == count
            &&& other != l ==> after.counts()[other] == before.counts()[other]
            &&& after.free_stack() == before.free_stack().drop_last()
            &&& !after.free_stack().contains(l)
        }),
{
    before.free_slots_exist();
    let l = before.free_stack().last();
    assert(before.free_stack()[before.free_stack().len() - 1] == l);
    fresh_view_names_its_slot(before, l, generation);
    if after.free_stack().contains(l) {
        let k = choose|k: int| 0 <= k < after.free_stack().len() && after.free_stack()[k] == l;
        assert(before.free_stack()[k] == l);
    }
}

} // verus!
