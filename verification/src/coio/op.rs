//! In-flight operations: their state, the set of them a task holds, and the
//! tag by which a completion finds them.

use vstd::prelude::*;

verus! {

/// The state of one operation in the runtime's operation slab.
#[derive(Clone, Copy, Debug, PartialEq, Eq, Structural)]
pub struct IoSlot {
    pub result: i32,
    pub submitted: u8,
    pub ready: u8,
    pub bid: u16,
}

impl Default for IoSlot {
    /// An unused slot.
    fn default() -> (slot: Self)
        ensures
            slot == unused(),
    {
        IoSlot { result: 0, submitted: 0, ready: 0, bid: 0 }
    }
}

/// A slot that no operation occupies.
pub open spec fn unused() -> IoSlot {
    IoSlot { result: 0, submitted: 0, ready: 0, bid: 0 }
}

impl IoSlot {
    /// Whether the slot's operation was submitted and has not completed.
    pub open spec fn in_flight(self) -> bool {
        self.submitted != 0 && self.ready == 0
    }

    /// Whether the slot's operation has completed.
    pub open spec fn completed(self) -> bool {
        self.submitted != 0 && self.ready != 0
    }
}

/// How many indices an [`IoVec`] holds without a heap allocation.
pub const IO_INLINE_CAP: usize = 3;

enum Repr {
    Inline { len: usize, slots: [u32; 3] },
    Heap { list: Vec<u32> },
}

/// The operation slots that a task holds. Up to three indices are kept inline,
/// from the fourth on all of them are on the heap, and stay there.
pub struct IoVec {
    repr: Repr,
}

impl View for IoVec {
    type V = Seq<u32>;

    closed spec fn view(&self) -> Seq<u32> {
        match self.repr {
            Repr::Inline { len, slots } => slots@.take(len as int),
            Repr::Heap { list } => list@,
        }
    }
}

/// The position of the first `value` in `s`, or its length.
pub open spec fn position(s: Seq<u32>, value: u32) -> int
    decreases s.len(),
{
    if s.len() == 0 || s[0] == value {
        0
    } else {
        1 + position(s.skip(1), value)
    }
}

pub proof fn lemma_position(s: Seq<u32>, value: u32)
    ensures
        0 <= position(s, value) <= s.len(),
        position(s, value) < s.len() <==> s.contains(value),
        position(s, value) < s.len() ==> s[position(s, value)] == value,
        forall|i: int| 0 <= i < position(s, value) ==> s[i] != value,
    decreases s.len(),
{
    if s.len() == 0 || s[0] == value {
    } else {
        let t = s.skip(1);
        lemma_position(t, value);
        assert forall|i: int| 0 <= i < position(s, value) implies s[i] != value by {
            if i > 0 {
                assert(s[i] == t[i - 1]);
            }
        }
        if s.contains(value) {
            let k = s.index_of(value);
            assert(t[k - 1] == value);
            assert(t.contains(value));
        }
        if position(t, value) < t.len() {
            assert(s[position(s, value)] == value);
        }
    }
}

/// `s` without its first `value`, whose place the last element takes.
pub open spec fn swap_removed(s: Seq<u32>, value: u32) -> Seq<u32> {
    let i = position(s, value);
    if i < s.len() {
        s.update(i, s.last()).drop_last()
    } else {
        s
    }
}

/// Removing a value that occurs once leaves exactly the others.
pub proof fn lemma_swap_removed(s: Seq<u32>, value: u32)
    requires
        s.no_duplicates(),
    ensures
        swap_removed(s, value).no_duplicates(),
        forall|x: u32|
            #![trigger swap_removed(s, value).contains(x)]
            #![trigger s.contains(x)]
            swap_removed(s, value).contains(x) <==> s.contains(x) && x != value,
        swap_removed(s, value).len() == if s.contains(value) {
            s.len() - 1
        } else {
            s.len() as int
        },
{
    lemma_position(s, value);
    let r = swap_removed(s, value);
    let i = position(s, value);
    assert forall|x: u32|
        #![trigger swap_removed(s, value).contains(x)]
        #![trigger s.contains(x)]
        swap_removed(s, value).contains(x) <==> s.contains(x) && x != value by {
        if s.contains(value) {
            if r.contains(x) {
                let k = r.index_of(x);
                if k == i {
                    assert(s[s.len() - 1] == x);
                } else {
                    assert(s[k] == x);
                }
            }
            if s.contains(x) && x != value {
                let k = s.index_of(x);
                if k == s.len() - 1 {
                    assert(r[i] == x);
                } else {
                    assert(r[k] == x);
                }
            }
        }
    }
}

impl IoVec {
    #[verifier::type_invariant]
    spec fn inv(self) -> bool {
        match self.repr {
            Repr::Inline { len, slots } => len <= IO_INLINE_CAP,
            Repr::Heap { list } => true,
        }
    }

    /// Whether the indices are on the heap.
    pub closed spec fn on_heap(&self) -> bool {
        self.repr is Heap
    }

    /// Nothing held.
    pub fn new() -> (v: Self)
        ensures
            v@ == Seq::<u32>::empty(),
            !v.on_heap(),
    {
        IoVec { repr: Repr::Inline { len: 0, slots: [0, 0, 0] } }
    }

    pub fn len(&self) -> (n: usize)
        ensures
            n == self@.len(),
    {
        proof {
            use_type_invariant(self);
        }
        match &self.repr {
            Repr::Inline { len, slots } => *len,
            Repr::Heap { list } => list.len(),
        }
    }

    pub fn is_empty(&self) -> (empty: bool)
        ensures
            empty == (self@.len() == 0),
    {
        self.len() == 0
    }

    pub fn is_heap(&self) -> (heap: bool)
        ensures
            heap == self.on_heap(),
    {
        match &self.repr {
            Repr::Inline { len, slots } => false,
            Repr::Heap { list } => true,
        }
    }

    /// The index at place `i`.
    pub fn slot_at(&self, i: usize) -> (slot: u32)
        requires
            i < self@.len(),
        ensures
            slot == self@[i as int],
    {
        proof {
            use_type_invariant(self);
        }
        match &self.repr {
            Repr::Inline { len, slots } => slots[i],
            Repr::Heap { list } => list[i],
        }
    }

    /// Appends `index`, moving to the heap with the fourth.
    pub fn push(&mut self, index: u32)
        ensures
            final(self)@ == old(self)@.push(index),
            final(self).on_heap() == (old(self).on_heap() || old(self)@.len() == IO_INLINE_CAP),
    {
        proof {
            use_type_invariant(&*self);
        }
        let mut repr: Repr = Repr::Inline { len: 0, slots: [0, 0, 0] };
        core::mem::swap(&mut repr, &mut self.repr);
        match repr {
            Repr::Inline { len, slots } => {
                if len == 0 {
                    self.repr = Repr::Inline { len: 1, slots: [index, 0, 0] };
                    assert(self@ =~= old(self)@.push(index));
                } else if len == 1 {
                    self.repr = Repr::Inline { len: 2, slots: [slots[0], index, 0] };
                    assert(self@ =~= old(self)@.push(index));
                } else if len == 2 {
                    self.repr = Repr::Inline { len: 3, slots: [slots[0], slots[1], index] };
                    assert(self@ =~= old(self)@.push(index));
                } else {
                    let mut heap: Vec<u32> = Vec::new();
                    heap.push(slots[0]);
                    heap.push(slots[1]);
                    heap.push(slots[2]);
                    heap.push(index);
                    self.repr = Repr::Heap { list: heap };
                    assert(self@ =~= old(self)@.push(index));
                }
            },
            Repr::Heap { list } => {
                let mut heap: Vec<u32> = list;
                heap.push(index);
                self.repr = Repr::Heap { list: heap };
            },
        }
    }

    /// Removes the first `index`; the last element takes its place. Whether it
    /// was there comes back.
    pub fn remove_value(&mut self, index: u32) -> (found: bool)
        ensures
            found == old(self)@.contains(index),
            final(self)@ == swap_removed(old(self)@, index),
            final(self).on_heap() == old(self).on_heap(),
    {
        proof {
            use_type_invariant(&*self);
            lemma_position(self@, index);
        }
        let n: usize = self.len();
        let mut i: usize = 0;
        while i < n
            invariant
                self@ == old(self)@,
                self.on_heap() == old(self).on_heap(),
                i <= n == self@.len(),
                0 <= position(self@, index) <= n,
                position(self@, index) < n ==> self@[position(self@, index)] == index,
                position(self@, index) < n <==> self@.contains(index),
                forall|k: int| 0 <= k < i ==> self@[k] != index,
                forall|k: int| 0 <= k < position(self@, index) ==> self@[k] != index,
            decreases n - i,
        {
            if self.slot_at(i) == index {
                assert(position(self@, index) == i);
                self.take_at(i);
                return true;
            }
            i = i + 1;
        }
        false
    }

    fn take_at(&mut self, i: usize)
        requires
            i < old(self)@.len(),
        ensures
            final(self)@ == old(self)@.update(i as int, old(self)@.last()).drop_last(),
            final(self).on_heap() == old(self).on_heap(),
    {
        proof {
            use_type_invariant(&*self);
        }
        let mut repr: Repr = Repr::Inline { len: 0, slots: [0, 0, 0] };
        core::mem::swap(&mut repr, &mut self.repr);
        match repr {
            Repr::Inline { len, slots } => {
                let mut kept: [u32; 3] = slots;
                let last: u32 = slots[len - 1];
                kept[i] = last;
                self.repr = Repr::Inline { len: len - 1, slots: kept };
                assert(self@ =~= old(self)@.update(i as int, old(self)@.last()).drop_last());
            },
            Repr::Heap { list } => {
                let mut heap: Vec<u32> = list;
                let _ = heap.swap_remove(i);
                self.repr = Repr::Heap { list: heap };
                assert(self@ =~= old(self)@.update(i as int, old(self)@.last()).drop_last());
            },
        }
    }

    /// Walks the indices in order.
    pub fn iter(&self) -> (it: IoVecIter<'_>)
        ensures
            it.rest() == self@,
    {
        let len: usize = self.len();
        assert(self@.subrange(0, len as int) =~= self@);
        IoVecIter { vec: self, i: 0, len }
    }
}

impl Default for IoVec {
    fn default() -> (v: Self)
        ensures
            v@ == Seq::<u32>::empty(),
            !v.on_heap(),
    {
        IoVec::new()
    }
}

/// A walk over the indices of an [`IoVec`].
pub struct IoVecIter<'a> {
    vec: &'a IoVec,
    i: usize,
    len: usize,
}

impl<'a> IoVecIter<'a> {
    #[verifier::type_invariant]
    spec fn inv(self) -> bool {
        self.i <= self.len <= self.vec@.len()
    }

    /// What is left to come.
    pub closed spec fn rest(&self) -> Seq<u32> {
        self.vec@.subrange(self.i as int, self.len as int)
    }

    /// The next index.
    pub fn next(&mut self) -> (next: Option<u32>)
        ensures
            match next {
                Some(index) => old(self).rest().len() > 0 && index == old(self).rest()[0]
                    && final(self).rest() == old(self).rest().skip(1),
                None => old(self).rest().len() == 0 && final(self).rest() == old(self).rest(),
            },
    {
        proof {
            use_type_invariant(&*self);
        }
        if self.i < self.len {
            let value: u32 = self.vec.slot_at(self.i);
            self.i = self.i + 1;
            assert(self.rest() =~= old(self).rest().skip(1));
            Some(value)
        } else {
            None
        }
    }

    /// The remaining indices.
    pub fn collect(self) -> (all: Vec<u32>)
        ensures
            all@ == self.rest(),
    {
        proof {
            use_type_invariant(&self);
        }
        let mut all: Vec<u32> = Vec::new();
        let mut k: usize = self.i;
        while k < self.len
            invariant
                self.i <= k <= self.len <= self.vec@.len(),
                all@ == self.vec@.subrange(self.i as int, k as int),
            decreases self.len - k,
        {
            all.push(self.vec.slot_at(k));
            k = k + 1;
            assert(all@ =~= self.vec@.subrange(self.i as int, k as int));
        }
        all
    }
}

/// The tag on a submission: the task it is for, and the slot it occupies.
#[derive(Clone, Copy, Debug, PartialEq, Eq, Structural)]
pub struct IoUserData {
    pub index: u32,
    pub io_slot: u32,
}

/// The tag as one number: the slot above the task.
pub open spec fn tag(ud: IoUserData) -> u64 {
    (ud.io_slot * 0x1_0000_0000 + ud.index) as u64
}

/// The tag that a number carries.
pub open spec fn untag(raw: u64) -> IoUserData {
    IoUserData { index: (raw % 0x1_0000_0000) as u32, io_slot: (raw / 0x1_0000_0000) as u32 }
}

impl From<IoUserData> for u64 {
    fn from(ud: IoUserData) -> (raw: u64) {
        ud.io_slot as u64 * 0x1_0000_0000 + ud.index as u64
    }
}

impl vstd::std_specs::convert::FromSpecImpl<IoUserData> for u64 {
    open spec fn obeys_from_spec() -> bool {
        true
    }

    open spec fn from_spec(ud: IoUserData) -> u64 {
        tag(ud)
    }
}

impl From<u64> for IoUserData {
    fn from(raw: u64) -> (ud: IoUserData) {
        IoUserData { index: (raw % 0x1_0000_0000) as u32, io_slot: (raw / 0x1_0000_0000) as u32 }
    }
}

impl vstd::std_specs::convert::FromSpecImpl<u64> for IoUserData {
    open spec fn obeys_from_spec() -> bool {
        true
    }

    open spec fn from_spec(raw: u64) -> IoUserData {
        untag(raw)
    }
}

/// A completion finds the task and the slot that its submission was tagged
/// with.
pub proof fn tagged_data_comes_back(ud: IoUserData)
    ensures
        untag(tag(ud)) == ud,
{
}

/// No number is lost on the way through a tag.
pub proof fn numbers_survive_tagging(raw: u64)
    ensures
        tag(untag(raw)) == raw,
{
}

/// A tag holds the slot in its upper half and the task in its lower.
pub proof fn tag_layout(ud: IoUserData)
    ensures
        tag(ud) == ud.io_slot * 0x1_0000_0000 + ud.index,
        tag(ud) / 0x1_0000_0000 == ud.io_slot,
        tag(ud) % 0x1_0000_0000 == ud.index,
{
}

/// A slot is unused, in flight or completed, by what was recorded of it.
pub proof fn slot_is_in_one_state(slot: IoSlot)
    ensures
        slot.submitted == 0 ==> !slot.in_flight() && !slot.completed(),
        slot.submitted != 0 && slot.ready == 0 ==> slot.in_flight() && !slot.completed(),
        slot.submitted != 0 && slot.ready != 0 ==> slot.completed() && !slot.in_flight(),
        unused().submitted == 0 && unused().ready == 0 && unused().result == 0 && unused().bid
            == 0,
{
}

/// A task's first three operations are held without a heap allocation.
pub proof fn three_operations_are_inline()
    ensures
        IO_INLINE_CAP == 3,
{
}

} // verus!
