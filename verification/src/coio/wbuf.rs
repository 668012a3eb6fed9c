//! Write buffers over one level of a slab: a stack of free slots, and the
//! buffers that own one slot each.

use vstd::prelude::*;

use crate::coio::fixed;
use crate::coio::generation::Generation;
use crate::coio::levels;

verus! {

/// One level of write buffers.
pub struct WriteBufferPool {
    size: u32,
    base_offset: u32,
    free: Vec<u32>,
}

impl WriteBufferPool {
    pub closed spec fn slot_bytes(&self) -> int {
        self.size as int
    }

    /// Where slot 0 starts.
    pub closed spec fn base(&self) -> int {
        self.base_offset as int
    }

    /// The free slots; the last is taken first.
    pub closed spec fn free_stack(&self) -> Seq<u32> {
        self.free@
    }

    /// Where slot `local` starts.
    pub open spec fn slot_start(&self, local: int) -> int {
        self.base() + local * self.slot_bytes()
    }

    /// `count` free slots of `size` bytes from `base_offset` on.
    pub fn new(base_offset: u32, size: u32, count: u32) -> (pool: Self)
        requires
            size > 0,
            count > 0,
        ensures
            pool.slot_bytes() == size,
            pool.base() == base_offset,
            pool.free_stack() == fixed::countdown(count as nat),
    {
        let mut free: Vec<u32> = Vec::new();
        let mut left: u32 = count;
        while left > 0
            invariant
                left <= count,
                free@ == fixed::countdown(count as nat).take(count - left),
            decreases left,
        {
            left = left - 1;
            free.push(left);
            assert(free@ =~= fixed::countdown(count as nat).take(count - left));
        }
        assert(free@ =~= fixed::countdown(count as nat));
        WriteBufferPool { size, base_offset, free }
    }

    pub fn slot_size(&self) -> (n: u32)
        ensures
            n == self.slot_bytes(),
    {
        self.size
    }

    /// Where slot `local` starts.
    pub fn slot_offset(&self, local: u32) -> (offset: u32)
        requires
            self.slot_start(local as int) <= u32::MAX,
        ensures
            offset == self.slot_start(local as int),
    {
        assert(local * self.size >= 0) by (nonlinear_arith)
            requires
                local >= 0,
                self.size >= 0,
        ;
        self.base_offset + local * self.size
    }

    /// Takes a free slot.
    pub fn acquire(&mut self) -> (local: Option<u32>)
        ensures
            final(self).slot_bytes() == old(self).slot_bytes(),
            final(self).base() == old(self).base(),
            match local {
                Some(l) => {
                    &&& old(self).free_stack().len() > 0
                    &&& l == old(self).free_stack().last()
                    &&& final(self).free_stack() == old(self).free_stack().drop_last()
                },
                None => old(self).free_stack().len() == 0 && final(self).free_stack() == old(
                    self,
                ).free_stack(),
            },
    {
        self.free.pop()
    }

    /// Gives slot `local` back.
    pub fn release(&mut self, local: u32)
        ensures
            final(self).slot_bytes() == old(self).slot_bytes(),
            final(self).base() == old(self).base(),
            final(self).free_stack() == old(self).free_stack().push(local),
    {
        self.free.push(local);
    }

    /// The number of free slots.
    pub fn free_count(&self) -> (n: usize)
        ensures
            n == self.free_stack().len(),
    {
        self.free.len()
    }

    /// The bytes of slot `local` within `memory`.
    pub fn get_slice_mut<'a>(&self, memory: &'a mut Vec<u8>, local: u32) -> (slot: &'a mut [u8])
        requires
            self.slot_start(local as int) + self.slot_bytes() <= old(memory)@.len(),
            self.slot_start(local as int) <= u32::MAX,
        ensures
            ({
                let start = self.slot_start(local as int);
                let size = self.slot_bytes();
                &&& slot@ == old(memory)@.subrange(start, start + size)
                &&& final(memory)@ == old(memory)@.take(start) + final(slot)@ + old(memory)@.skip(
                    start + size,
                )
            }),
    {
        let start: usize = self.slot_offset(local) as usize;
        let size: usize = self.size as usize;
        let all: &mut [u8] = memory.as_mut_slice();
        let (_before, rest) = all.split_at_mut(start);
        let (slot, _after) = rest.split_at_mut(size);
        slot
    }
}

/// A slot that was given back is the next one taken.
pub proof fn released_slot_is_taken_next(free: Seq<u32>, local: u32)
    ensures
        free.push(local).last() == local,
        free.push(local).drop_last() == free,
{
    assert(free.push(local).drop_last() =~= free);
}

/// A buffer that owns one slot of a level.
pub struct WriteBuffer {
    offset: u32,
    bid: u32,
    len: u32,
    generation: u32,
}

impl WriteBuffer {
    /// Where the slot starts.
    pub closed spec fn start(&self) -> u32 {
        self.offset
    }

    /// The slot: its level and its place in it, packed.
    pub closed spec fn id(&self) -> u32 {
        self.bid
    }

    /// How many bytes are filled.
    pub closed spec fn filled(&self) -> u32 {
        self.len
    }

    /// The run it was made in.
    pub closed spec fn run(&self) -> u32 {
        self.generation
    }

    /// The level of the slot.
    pub open spec fn level(&self) -> int {
        (self.id() >> 24) as int
    }

    /// A buffer over a slot that was just taken.
    pub fn new(offset: u32, bid: u32, generation: u32) -> (buffer: Self)
        ensures
            buffer.start() == offset,
            buffer.id() == bid,
            buffer.filled() == 0,
            buffer.run() == generation,
    {
        WriteBuffer { offset, bid, len: 0, generation }
    }

    pub fn offset(&self) -> (offset: u32)
        ensures
            offset == self.start(),
    {
        self.offset
    }

    /// The slot's size. The buffer must be of the active run.
    pub fn capacity(&self, active: &Generation, pools: &Vec<WriteBufferPool>) -> (n: u32)
        requires
            active.is(self.run()),
            self.level() < pools@.len(),
        ensures
            n == pools@[self.level()].slot_bytes(),
    {
        pools[levels::bid_level(self.bid) as usize].slot_size()
    }

    pub fn len(&self) -> (n: usize)
        ensures
            n == self.filled(),
    {
        self.len as usize
    }

    pub fn is_empty(&self) -> (empty: bool)
        ensures
            empty == (self.filled() == 0),
    {
        self.len == 0
    }

    /// The filled bytes. The buffer must be of the active run.
    pub fn to_vec(&self, active: &Generation, memory: &Vec<u8>) -> (bytes: Vec<u8>)
        requires
            active.is(self.run()),
            self.start() + self.filled() <= memory@.len(),
        ensures
            bytes@ == memory@.subrange(self.start() as int, self.start() + self.filled()),
    {
        let n: usize = memory.len();
        assert(self.offset + self.len <= n);
        crate::lines::copy_range(
            memory.as_slice(),
            self.offset as usize,
            self.offset as usize + self.len as usize,
        )
    }

    /// Says how many bytes are filled, which the slot must have.
    pub fn set_len(&mut self, active: &Generation, pools: &Vec<WriteBufferPool>, new_len: u32)
        requires
            active.is(old(self).run()),
            old(self).level() < pools@.len(),
            new_len <= pools@[old(self).level()].slot_bytes(),
        ensures
            final(self).filled() == new_len,
            final(self).start() == old(self).start(),
            final(self).id() == old(self).id(),
            final(self).run() == old(self).run(),
    {
        self.len = new_len;
    }

    /// Empties the buffer, keeping the slot.
    pub fn clear(&mut self)
        ensures
            final(self).filled() == 0,
            final(self).start() == old(self).start(),
            final(self).id() == old(self).id(),
            final(self).run() == old(self).run(),
    {
        self.len = 0;
    }

    /// Gives the slot back. That of an earlier run is left alone.
    pub fn recycle(self, active: &Generation, pools: &mut Vec<WriteBufferPool>)
        requires
            active.is(self.run()) ==> self.level() < old(pools)@.len(),
        ensures
            final(pools)@.len() == old(pools)@.len(),
            forall|i: int|
                0 <= i < old(pools)@.len() ==> {
                    let before = old(pools)@[i];
                    let after = #[trigger] final(pools)@[i];
                    &&& after.slot_bytes() == before.slot_bytes()
                    &&& after.base() == before.base()
                    &&& after.free_stack() == if active.is(self.run()) && i == self.level() {
                        before.free_stack().push(self.id() & 0x00FF_FFFF)
                    } else {
                        before.free_stack()
                    }
                },
    {
        if active.active_gen_matches(self.generation) {
            let level: usize = levels::bid_level(self.bid) as usize;
            let local: u32 = levels::bid_local(self.bid);
            let pool: &mut WriteBufferPool = &mut pools[level];
            pool.release(local);
        }
    }
}

/// The slots of a level stand back to back: the first at its base, each other
/// one slot size behind the one before.
pub proof fn level_slots_stand_back_to_back(pool: WriteBufferPool, i: int)
    ensures
        pool.slot_start(0) == pool.base(),
        pool.slot_start(i + 1) == pool.slot_start(i) + pool.slot_bytes(),
{
    assert((i + 1) * pool.slot_bytes() == i * pool.slot_bytes() + pool.slot_bytes())
        by (nonlinear_arith);
}

/// The level of a buffer is the top byte of its id.
pub proof fn level_is_the_top_byte(buffer: WriteBuffer)
    ensures
        buffer.level() == buffer.id() as int / 16777216,
{
    let id = buffer.id();
    assert(id >> 24 == id / 16777216) by (bit_vector);
}

} // verus!
