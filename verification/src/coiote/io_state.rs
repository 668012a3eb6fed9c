//! The operations of one task: which are in flight, which are done, and with
//! what result. State for sixty-four of them is kept inline; more move all of
//! it to the heap.

use vstd::prelude::*;

use crate::coio::arena::ArenaAlloc;
use crate::coio::bits;

verus! {

/// How many operations are kept inline.
pub const INLINE_SLOTS: u32 = 64;

/// The state of a task's operations.
pub struct IoState {
    heap: bool,
    submitted: Vec<u64>,
    ready: Vec<u64>,
    results: Vec<i32>,
    allocs: Vec<Option<ArenaAlloc>>,
}

/// `s` with `x` at place `i`, filled up with `fill` as far as it takes.
pub open spec fn put<T>(s: Seq<T>, i: int, x: T, fill: T) -> Seq<T> {
    if i < s.len() {
        s.update(i, x)
    } else {
        s + Seq::new((i - s.len()) as nat, |k: int| fill) + seq![x]
    }
}

/// The operation at place `i` of a list that may be too short for it.
pub open spec fn at<T>(s: Seq<Option<T>>, i: int) -> Option<T> {
    if 0 <= i < s.len() {
        s[i]
    } else {
        None
    }
}

fn set_bit(words: &mut Vec<u64>, i: u32, value: bool)
    ensures
        final(words)@.len() == if i as int / 64 >= old(words)@.len() {
            i as int / 64 + 1
        } else {
            old(words)@.len() as int
        },
        forall|j: int|
            #![trigger bits::bit_at(final(words)@, j)]
            #![trigger bits::bit_at(old(words)@, j)]
            bits::bit_at(final(words)@, j) == if j == i {
                value
            } else {
                bits::bit_at(old(words)@, j)
            },
{
    let word: usize = i as usize / 64;
    let ghost before = words@;
    proof {
        bits::lemma_uniform();
    }
    while words.len() <= word
        invariant
            before == old(words)@,
            words@.len() >= before.len(),
            words@.len() <= word + 1 || words@.len() == before.len(),
            forall|j: u64| j < 64 ==> !#[trigger] bits::bit(0, j),
            forall|j: int|
                #![trigger bits::bit_at(words@, j)]
                #![trigger bits::bit_at(before, j)]
                bits::bit_at(words@, j) == bits::bit_at(before, j),
        decreases word + 1 - words@.len(),
    {
        let ghost now = words@;
        words.push(0);
        assert forall|j: int|
            #![trigger bits::bit_at(words@, j)]
            #![trigger bits::bit_at(before, j)]
            bits::bit_at(words@, j) == bits::bit_at(before, j) by {
            assert(bits::bit_at(now, j) == bits::bit_at(before, j));
            if 0 <= j < words@.len() * 64 {
                if j / 64 == now.len() {
                    assert(!bits::bit(0, (j % 64) as u64));
                } else {
                    assert(words@[j / 64] == now[j / 64]);
                }
            }
        }
    }
    let ghost mid = words@;
    if value {
        bits::set(words, i);
    } else {
        bits::clear(words, i);
    }
    assert forall|j: int|
        #![trigger bits::bit_at(words@, j)]
        #![trigger bits::bit_at(before, j)]
        bits::bit_at(words@, j) == if j == i as int {
            value
        } else {
            bits::bit_at(before, j)
        } by {
        assert(bits::bit_at(mid, j) == bits::bit_at(before, j));
    }
}

impl IoState {
    /// Whether the state has moved to the heap.
    pub closed spec fn on_heap(&self) -> bool {
        self.heap
    }

    /// Whether operation `i` is in flight.
    pub closed spec fn in_flight(&self, i: int) -> bool {
        bits::bit_at(self.submitted@, i)
    }

    /// How many operations the state has room for.
    pub closed spec fn room(&self) -> int {
        self.submitted@.len() as int * 64
    }

    /// Whether operation `i` is done.
    pub closed spec fn done(&self, i: int) -> bool {
        bits::bit_at(self.ready@, i)
    }

    pub closed spec fn results(&self) -> Seq<i32> {
        self.results@
    }

    /// The blocks that operations keep their buffers in.
    pub closed spec fn blocks(&self) -> Seq<Option<ArenaAlloc>> {
        self.allocs@
    }

    /// Inline, there is room for exactly sixty-four operations.
    pub closed spec fn wf(&self) -> bool {
        &&& !self.heap ==> self.submitted@.len() == 1 && self.results@.len() == 64
        &&& self.submitted@.len() >= 1
        &&& self.submitted@.len() <= 0x400_0000
        &&& self.results@.len() >= 64
    }

    /// What holds of every well-formed state.
    pub proof fn wf_means(&self)
        requires
            self.wf(),
        ensures
            !self.on_heap() ==> self.room() == INLINE_SLOTS && self.results().len()
                == INLINE_SLOTS,
            self.results().len() >= INLINE_SLOTS,
            self.room() >= INLINE_SLOTS,
            forall|i: int| #[trigger] self.in_flight(i) ==> 0 <= i < self.room(),
    {
    }

    /// Nothing in flight.
    pub fn new() -> (io: Self)
        ensures
            io.wf(),
            !io.on_heap(),
            forall|i: int| !#[trigger] io.in_flight(i),
            forall|i: int| !#[trigger] io.done(i),
            io.results() == Seq::new(64, |i: int| 0i32),
            io.blocks() == Seq::<Option<ArenaAlloc>>::empty(),
            io.room() == INLINE_SLOTS,
    {
        let mut submitted: Vec<u64> = Vec::new();
        submitted.push(0);
        let mut results: Vec<i32> = Vec::new();
        results.resize(64, 0);
        let io = IoState {
            heap: false,
            submitted,
            ready: Vec::new(),
            results,
            allocs: Vec::new(),
        };
        proof {
            bits::lemma_filled(io.submitted@, 0);
            assert(io.results@ =~= Seq::new(64, |i: int| 0i32));
        }
        io
    }

    pub fn is_heap(&self) -> (heap: bool)
        ensures
            heap == self.on_heap(),
    {
        self.heap
    }

    /// Whether operation `bit` is in flight.
    pub fn is_submitted(&self, bit: u32) -> (submitted: bool)
        requires
            self.wf(),
            !self.on_heap() ==> bit < INLINE_SLOTS,
        ensures
            submitted == self.in_flight(bit as int),
    {
        bits::test(&self.submitted, bit)
    }

    /// Records whether operation `bit` is in flight.
    pub fn set_submitted(&mut self, bit: u32, value: bool)
        requires
            old(self).wf(),
        ensures
            final(self).wf(),
            final(self).on_heap() == (old(self).on_heap() || bit >= INLINE_SLOTS),
            forall|i: int|
                #![trigger final(self).in_flight(i)]
                #![trigger old(self).in_flight(i)]
                final(self).in_flight(i) == if i == bit {
                    value
                } else {
                    old(self).in_flight(i)
                },
            forall|i: int|
                #![trigger final(self).done(i)]
                #![trigger old(self).done(i)]
                final(self).done(i) == old(self).done(i),
            final(self).results() == old(self).results(),
            final(self).blocks() == old(self).blocks(),
            final(self).room() == if bit as int / 64 * 64 >= old(self).room() {
                bit as int / 64 * 64 + 64
            } else {
                old(self).room()
            },
    {
        if bit >= INLINE_SLOTS {
            self.heap = true;
        }
        set_bit(&mut self.submitted, bit, value);
    }

    /// Whether operation `bit` is done.
    pub fn is_ready(&self, bit: u32) -> (ready: bool)
        ensures
            ready == self.done(bit as int),
    {
        bits::test(&self.ready, bit)
    }

    /// Records whether operation `bit` is done.
    pub fn set_ready(&mut self, bit: u32, value: bool)
        requires
            old(self).wf(),
        ensures
            final(self).wf(),
            final(self).on_heap() == old(self).on_heap(),
            forall|i: int|
                #![trigger final(self).done(i)]
                #![trigger old(self).done(i)]
                final(self).done(i) == if i == bit {
                    value
                } else {
                    old(self).done(i)
                },
            forall|i: int|
                #![trigger final(self).in_flight(i)]
                #![trigger old(self).in_flight(i)]
                final(self).in_flight(i) == old(self).in_flight(i),
            final(self).results() == old(self).results(),
            final(self).blocks() == old(self).blocks(),
            final(self).room() == old(self).room(),
    {
        set_bit(&mut self.ready, bit, value);
    }

    /// The result of operation `slot`.
    pub fn result(&self, slot: u32) -> (result: i32)
        requires
            slot < self.results().len(),
        ensures
            result == self.results()[slot as int],
    {
        self.results[slot as usize]
    }

    /// Records the result of operation `slot`.
    pub fn set_result(&mut self, slot: u32, value: i32)
        requires
            old(self).wf(),
            slot < u32::MAX,
        ensures
            final(self).wf(),
            final(self).on_heap() == (old(self).on_heap() || slot >= INLINE_SLOTS),
            final(self).results() == put(old(self).results(), slot as int, value, 0),
            forall|i: int|
                #![trigger final(self).in_flight(i)]
                #![trigger old(self).in_flight(i)]
                final(self).in_flight(i) == old(self).in_flight(i),
            forall|i: int|
                #![trigger final(self).done(i)]
                #![trigger old(self).done(i)]
                final(self).done(i) == old(self).done(i),
            final(self).blocks() == old(self).blocks(),
            final(self).room() == old(self).room(),
    {
        if slot >= INLINE_SLOTS {
            self.heap = true;
        }
        let ghost before = self.results@;
        if slot as usize >= self.results.len() {
            let n: usize = slot as usize + 1;
            self.results.resize(n, 0);
        }
        self.results.set(slot as usize, value);
        assert(self.results@ =~= put(before, slot as int, value, 0));
    }

    /// The block of operation `slot`.
    pub fn set_alloc(&mut self, slot: u32, block: ArenaAlloc)
        requires
            old(self).wf(),
        ensures
            final(self).wf(),
            final(self).on_heap() == old(self).on_heap(),
            final(self).blocks() == put(old(self).blocks(), slot as int, Some(block), None),
            forall|i: int|
                #![trigger final(self).in_flight(i)]
                #![trigger old(self).in_flight(i)]
                final(self).in_flight(i) == old(self).in_flight(i),
            forall|i: int|
                #![trigger final(self).done(i)]
                #![trigger old(self).done(i)]
                final(self).done(i) == old(self).done(i),
            final(self).results() == old(self).results(),
            final(self).room() == old(self).room(),
    {
        let ghost before = self.allocs@;
        while self.allocs.len() <= slot as usize
            invariant
                self.allocs@.len() >= before.len(),
                self.allocs@.len() <= slot + 1 || self.allocs@.len() == before.len(),
                self.heap == old(self).heap,
                self.submitted == old(self).submitted,
                self.ready == old(self).ready,
                self.results == old(self).results,
                forall|i: int|
                    0 <= i < self.allocs@.len() ==> #[trigger] self.allocs@[i] == if i
                        < before.len() {
                        before[i]
                    } else {
                        None
                    },
            decreases slot + 1 - self.allocs@.len(),
        {
            self.allocs.push(None);
        }
        self.allocs.set(slot as usize, Some(block));
        assert(self.allocs@ =~= put(before, slot as int, Some(block), None));
    }

    /// Takes the block of operation `slot`.
    pub fn take_alloc(&mut self, slot: u32) -> (block: ArenaAlloc)
        requires
            old(self).wf(),
            at(old(self).blocks(), slot as int) is Some,
        ensures
            final(self).wf(),
            final(self).on_heap() == old(self).on_heap(),
            Some(block) == old(self).blocks()[slot as int],
            final(self).blocks() == old(self).blocks().update(slot as int, None),
            forall|i: int|
                #![trigger final(self).in_flight(i)]
                #![trigger old(self).in_flight(i)]
                final(self).in_flight(i) == old(self).in_flight(i),
            forall|i: int|
                #![trigger final(self).done(i)]
                #![trigger old(self).done(i)]
                final(self).done(i) == old(self).done(i),
            final(self).results() == old(self).results(),
            final(self).room() == old(self).room(),
    {
        let block: Option<ArenaAlloc> = self.allocs[slot as usize];
        self.allocs.set(slot as usize, None);
        block.unwrap()
    }

    /// The lowest operation that is not in flight. Inline, nothing when all
    /// are; on the heap there is always a next one.
    pub fn free_slot(&self) -> (slot: Option<u32>)
        requires
            self.wf(),
            self.room() < 0x1_0000_0000,
        ensures
            match slot {
                Some(i) => {
                    &&& !self.in_flight(i as int)
                    &&& forall|j: int| 0 <= j < i ==> #[trigger] self.in_flight(j)
                    &&& !self.on_heap() ==> i < INLINE_SLOTS
                },
                None => !self.on_heap() && forall|j: int|
                    0 <= j < INLINE_SLOTS ==> #[trigger] self.in_flight(j),
            },
    {
        let i: u32 = bits::first_clear(&self.submitted);
        assert forall|j: int| 0 <= j < i implies #[trigger] self.in_flight(j) by {
            assert(bits::bit_at(self.submitted@, j));
        }
        if !self.heap && i >= INLINE_SLOTS {
            return None;
        }
        Some(i)
    }
}

impl Default for IoState {
    fn default() -> (io: Self)
        ensures
            io.wf(),
            !io.on_heap(),
            forall|i: int| !#[trigger] io.in_flight(i),
            forall|i: int| !#[trigger] io.done(i),
            io.results() == Seq::new(64, |i: int| 0i32),
            io.blocks() == Seq::<Option<ArenaAlloc>>::empty(),
            io.room() == INLINE_SLOTS,
    {
        IoState::new()
    }
}

/// Putting something at a place changes that place alone: what stood elsewhere
/// stays, and a list that was too short is filled up to it.
pub proof fn put_changes_one_place<T>(s: Seq<T>, i: int, x: T, fill: T, j: int)
    requires
        0 <= i,
        0 <= j < put(s, i, x, fill).len(),
    ensures
        put(s, i, x, fill)[i] == x,
        i < s.len() ==> put(s, i, x, fill).len() == s.len(),
        i >= s.len() ==> put(s, i, x, fill).len() == i + 1,
        j != i && j < s.len() ==> put(s, i, x, fill)[j] == s[j],
        j != i && j >= s.len() ==> put(s, i, x, fill)[j] == fill,
{
}

/// What is at a place is what the list has there, and nothing beyond its end.
pub proof fn lookup_finds_what_is_there<T>(s: Seq<Option<T>>, i: int)
    ensures
        0 <= i < s.len() ==> at(s, i) == s[i],
        i < 0 || i >= s.len() ==> at(s, i) is None,
{
}

} // verus!
