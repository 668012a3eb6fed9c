//! Slabs and pools: a slab is one size class's run of slots, a pool holds one
//! slab per class.

use vstd::prelude::*;

use crate::coio::classes;
use crate::coio::classes::SizeClass;
use crate::coio::tracker;

verus! {

/// Where a slab's slots are: slot `i` starts `i * size` bytes after `base`.
#[verifier::ext_equal]
pub struct Shape {
    pub base: usize,
    pub size: u32,
    pub class: u8,
}

impl Shape {
    /// Where slot `local` starts.
    pub open spec fn slot_start(self, local: int) -> int {
        self.base + local * self.size
    }
}

/// A run of equal slots whose borrows are counted.
pub trait Slab: Sized {
    spec fn wf(&self) -> bool;

    /// The borrow count of every slot.
    spec fn counts(&self) -> Seq<i32>;

    spec fn shape(&self) -> Shape;

    /// Whether slots are handed out as they are in `other`: only the borrow
    /// counts may differ.
    spec fn same_stock(&self, other: &Self) -> bool;

    /// Whether slot `local` was put back, where `other` still lacks it.
    spec fn put_back(&self, other: &Self, local: u32) -> bool;

    /// Every slot lies below the largest address.
    proof fn slots_fit(&self)
        requires
            self.wf(),
        ensures
            self.shape().slot_start(self.counts().len() as int) <= usize::MAX,
            self.counts().len() <= classes::BID_LOCAL_MASK + 1,
    ;

    fn slot_size(&self) -> (n: u32)
        ensures
            n == self.shape().size,
    ;

    /// Where slot 0 starts.
    fn base(&self) -> (offset: usize)
        ensures
            offset == self.shape().base,
    ;

    fn slot_count(&self) -> (n: usize)
        ensures
            n == self.counts().len(),
    ;

    /// Counts one more shared view of slot `local`.
    fn clone_shared(&mut self, local: u32)
        requires
            old(self).wf(),
            local < old(self).counts().len(),
            0 < old(self).counts()[local as int] < i32::MAX,
        ensures
            final(self).wf(),
            final(self).shape() == old(self).shape(),
            final(self).counts() == old(self).counts().update(
                local as int,
                (old(self).counts()[local as int] + 1) as i32,
            ),
            final(self).same_stock(&*old(self)),
    ;

    /// Counts one more exclusive view of slot `local`.
    fn split_exclusive(&mut self, local: u32)
        requires
            old(self).wf(),
            local < old(self).counts().len(),
            i32::MIN < old(self).counts()[local as int] < 0,
        ensures
            final(self).wf(),
            final(self).shape() == old(self).shape(),
            final(self).counts() == old(self).counts().update(
                local as int,
                (old(self).counts()[local as int] - 1) as i32,
            ),
            final(self).same_stock(&*old(self)),
    ;

    /// Turns the sole shared view of slot `local` into an exclusive one.
    fn upgrade(&mut self, local: u32)
        requires
            old(self).wf(),
            local < old(self).counts().len(),
            old(self).counts()[local as int] == 1,
        ensures
            final(self).wf(),
            final(self).shape() == old(self).shape(),
            final(self).counts() == old(self).counts().update(local as int, -1i32),
            final(self).same_stock(&*old(self)),
    ;

    /// Turns the sole exclusive view of slot `local` into a shared one.
    fn downgrade(&mut self, local: u32)
        requires
            old(self).wf(),
            local < old(self).counts().len(),
            old(self).counts()[local as int] == -1,
        ensures
            final(self).wf(),
            final(self).shape() == old(self).shape(),
            final(self).counts() == old(self).counts().update(local as int, 1i32),
            final(self).same_stock(&*old(self)),
    ;

    /// Lets one view of slot `local` go. The slot is recycled with its last
    /// view.
    fn drop_view(&mut self, exclusive: bool, local: u32)
        requires
            old(self).wf(),
            local < old(self).counts().len(),
            tracker::held(old(self).counts()[local as int], exclusive),
        ensures
            final(self).wf(),
            final(self).shape() == old(self).shape(),
            final(self).counts() == old(self).counts().update(
                local as int,
                tracker::released(old(self).counts()[local as int], exclusive) as i32,
            ),
            if final(self).counts()[local as int] == 0 {
                final(self).put_back(&*old(self), local)
            } else {
                final(self).same_stock(&*old(self))
            },
    ;
}

/// Where slot `local` of `count` slots of `size` bytes from `base` on starts.
pub fn offset_in(base: usize, size: u32, count: usize, local: u32) -> (offset: usize)
    requires
        base + count * size <= usize::MAX,
        local < count,
    ensures
        offset == base + local * size,
        offset + size <= base + count * size,
{
    assert(local * size + size <= count * size) by (nonlinear_arith)
        requires
            local + 1 <= count,
            size >= 0,
    ;
    assert(0 <= local * size) by (nonlinear_arith)
        requires
            0 <= local,
            0 <= size,
    ;
    base + local as usize * size as usize
}

/// Where slot `local` of `slab` starts.
pub fn slot_offset<S: Slab>(slab: &S, local: u32) -> (offset: usize)
    requires
        slab.wf(),
        local < slab.counts().len(),
    ensures
        offset == slab.shape().slot_start(local as int),
        offset + slab.shape().size <= slab.shape().slot_start(slab.counts().len() as int),
{
    proof {
        slab.slots_fit();
    }
    offset_in(slab.base(), slab.slot_size(), slab.slot_count(), local)
}

/// Two different slots of a slab do not overlap.
pub proof fn slots_are_disjoint(shape: Shape, a: int, b: int)
    requires
        0 <= a < b,
    ensures
        shape.slot_start(a) + shape.size <= shape.slot_start(b),
{
    assert(a * shape.size + shape.size <= b * shape.size) by (nonlinear_arith)
        requires
            a + 1 <= b,
            shape.size >= 0,
    ;
}

/// One slab per size class.
pub struct Pool<S: Slab> {
    classes: Vec<SizeClass>,
    slabs: Vec<S>,
}

impl<S: Slab> Pool<S> {
    pub closed spec fn class_table(&self) -> Seq<SizeClass> {
        self.classes@
    }

    pub closed spec fn slab_seq(&self) -> Seq<S> {
        self.slabs@
    }

    pub open spec fn wf(&self) -> bool {
        &&& self.class_table().len() == self.slab_seq().len()
        &&& forall|i: int| 0 <= i < self.slab_seq().len() ==> (#[trigger] self.slab_seq()[i]).wf()
    }

    /// Pairs a class table with the slab of each class.
    pub fn new(classes: Vec<SizeClass>, slabs: Vec<S>) -> (pool: Self)
        requires
            classes@.len() == slabs@.len(),
            forall|i: int| 0 <= i < slabs@.len() ==> (#[trigger] slabs@[i]).wf(),
        ensures
            pool.wf(),
            pool.class_table() == classes@,
            pool.slab_seq() == slabs@,
    {
        Pool { classes, slabs }
    }

    pub fn classes(&self) -> (classes: &Vec<SizeClass>)
        ensures
            classes@ == self.class_table(),
    {
        &self.classes
    }

    pub fn slabs(&self) -> (slabs: &Vec<S>)
        ensures
            slabs@ == self.slab_seq(),
    {
        &self.slabs
    }

    /// The class whose slots are the smallest that hold `size` bytes.
    pub fn class_for(&self, size: usize) -> (class: Option<usize>)
        ensures
            class == if classes::first_fit(self.class_table(), size as int)
                < self.class_table().len() {
                Some(classes::first_fit(self.class_table(), size as int) as usize)
            } else {
                None
            },
    {
        classes::class_for(self.classes.as_slice(), size)
    }

    pub fn slab(&self, class: usize) -> (slab: &S)
        requires
            class < self.slab_seq().len(),
        ensures
            *slab == self.slab_seq()[class as int],
    {
        &self.slabs[class]
    }

    pub fn slab_mut(&mut self, class: usize) -> (slab: &mut S)
        requires
            class < old(self).slab_seq().len(),
        ensures
            *slab == old(self).slab_seq()[class as int],
            final(self).slab_seq() == old(self).slab_seq().update(class as int, *final(slab)),
            final(self).class_table() == old(self).class_table(),
    {
        &mut self.slabs[class]
    }

    pub fn slot_size(&self, class: usize) -> (n: u32)
        requires
            class < self.slab_seq().len(),
        ensures
            n == self.slab_seq()[class as int].shape().size,
    {
        self.slabs[class].slot_size()
    }

    /// Where slot `local` of class `class` starts.
    pub fn slot_offset(&self, class: usize, local: u32) -> (offset: usize)
        requires
            self.wf(),
            class < self.slab_seq().len(),
            local < self.slab_seq()[class as int].counts().len(),
        ensures
            offset == self.slab_seq()[class as int].shape().slot_start(local as int),
    {
        slot_offset(&self.slabs[class], local)
    }

    /// Lets one view of slot `local` of class `class` go.
    pub fn drop_view(&mut self, class: usize, exclusive: bool, local: u32)
        requires
            old(self).wf(),
            class < old(self).slab_seq().len(),
            local < old(self).slab_seq()[class as int].counts().len(),
            tracker::held(old(self).slab_seq()[class as int].counts()[local as int], exclusive),
        ensures
            final(self).wf(),
            final(self).class_table() == old(self).class_table(),
            final(self).slab_seq() == old(self).slab_seq().update(
                class as int,
                final(self).slab_seq()[class as int],
            ),
            final(self).slab_seq()[class as int].shape() == old(
                self,
            ).slab_seq()[class as int].shape(),
            final(self).slab_seq()[class as int].counts() == old(
                self,
            ).slab_seq()[class as int].counts().update(
                local as int,
                tracker::released(
                    old(self).slab_seq()[class as int].counts()[local as int],
                    exclusive,
                ) as i32,
            ),
            if final(self).slab_seq()[class as int].counts()[local as int] == 0 {
                final(self).slab_seq()[class as int].put_back(
                    &old(self).slab_seq()[class as int],
                    local,
                )
            } else {
                final(self).slab_seq()[class as int].same_stock(
                    &old(self).slab_seq()[class as int],
                )
            },
    {
        let slab: &mut S = self.slab_mut(class);
        slab.drop_view(exclusive, local);
    }
}

/// The slots of a slab stand back to back: the first at its base, each other
/// one slot size behind the one before.
pub proof fn slots_stand_back_to_back(shape: Shape, i: int)
    ensures
        shape.slot_start(0) == shape.base,
        shape.slot_start(i + 1) == shape.slot_start(i) + shape.size,
{
    assert((i + 1) * shape.size == i * shape.size + shape.size) by (nonlinear_arith);
}

} // verus!
