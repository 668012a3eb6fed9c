//! An arena that hands out blocks from the bottom up.
//!
//! Behind each block stands a footer: how far back the block reaches, and
//! whether it was given back. Giving back the topmost block also reclaims those
//! below it that were given back before.
//!
//! Places and alignments are counted from the start of the arena's memory.

use vstd::layout::align_of;
use vstd::layout::size_of;
use vstd::prelude::*;

use crate::coio::classes;

verus! {

/// The alignment that an arena's memory needs for every aligned place in it to
/// be an aligned address.
pub const ARENA_ALIGN: usize = 0x8000_0000;

/// The largest arena.
pub const ARENA_MAX: u32 = 0xffff_ffff;

/// The size of a footer.
pub const FOOTER_SIZE: u32 = 4;

pub const PAGE_SIZE: usize = 4096;

/// The bit of a footer that marks its block as given back.
pub const DEALLOCATED_BIT: u32 = 0x8000_0000;

/// The size and alignment of a value.
#[derive(Clone, Copy, Debug, PartialEq, Eq, Structural)]
pub struct Layout {
    size: usize,
    align: u32,
}

impl Layout {
    #[verifier::type_invariant]
    spec fn inv(self) -> bool {
        classes::power_of_two(self.align)
    }

    pub closed spec fn bytes(&self) -> int {
        self.size as int
    }

    pub closed spec fn alignment(&self) -> int {
        self.align as int
    }

    /// A layout of `size` bytes aligned to `align`, a power of two.
    pub fn from_size_align(size: usize, align: u32) -> (layout: Option<Layout>)
        ensures
            layout is Some <==> classes::power_of_two(align),
            layout matches Some(l) ==> l.bytes() == size && l.alignment() == align,
    {
        if !classes::is_power_of_two(align) {
            return None;
        }
        Some(Layout { size, align })
    }
}

/// A block: where it is, and how long.
#[derive(Clone, Copy, Debug, PartialEq, Eq, Structural)]
pub struct ArenaAlloc {
    pub size: u32,
    pub offset: u32,
}

/// A block as its footer describes it: it reaches from `start`, padding
/// counted, to `end`, where the footer stands.
pub struct Block {
    pub start: int,
    pub end: int,
    pub dead: bool,
}

/// The number in the four bytes at `at`.
pub open spec fn word_at(mem: Seq<u8>, at: int) -> int {
    mem[at] + 256 * mem[at + 1] + 65536 * mem[at + 2] + 16777216 * mem[at + 3]
}

/// The blocks below `top`, lowest first.
pub open spec fn blocks_below(mem: Seq<u8>, top: int) -> Seq<Block>
    decreases top,
{
    if top <= 0 {
        Seq::empty()
    } else {
        let word = word_at(mem, top - 4);
        let size = word % 0x8000_0000;
        let start = top - 4 - size;
        if start < 0 {
            Seq::empty()
        } else {
            blocks_below(mem, start).push(
                Block { start, end: top - 4, dead: word >= 0x8000_0000 },
            )
        }
    }
}

/// Whether the footers below `top` lead down to the bottom.
pub open spec fn chained(mem: Seq<u8>, top: int) -> bool
    decreases top,
{
    if top <= 0 {
        top == 0
    } else {
        let size = word_at(mem, top - 4) % 0x8000_0000;
        if size <= 0 || top - 4 - size < 0 {
            false
        } else {
            chained(mem, top - 4 - size)
        }
    }
}

/// What is left of `blocks` when those at the end that were given back go.
pub open spec fn trimmed(blocks: Seq<Block>) -> Seq<Block>
    decreases blocks.len(),
{
    if blocks.len() > 0 && blocks.last().dead {
        trimmed(blocks.drop_last())
    } else {
        blocks
    }
}

/// Where the next block can start.
pub open spec fn top_of(blocks: Seq<Block>) -> int {
    if blocks.len() == 0 {
        0
    } else {
        blocks.last().end + FOOTER_SIZE
    }
}

proof fn lemma_same_below(a: Seq<u8>, b: Seq<u8>, top: int)
    requires
        chained(a, top),
        0 <= top <= a.len(),
        top <= b.len(),
        forall|i: int| 0 <= i < top ==> a[i] == b[i],
    ensures
        chained(b, top),
        blocks_below(a, top) == blocks_below(b, top),
    decreases top,
{
    if top > 0 {
        let size = word_at(a, top - 4) % 0x8000_0000;
        assert(word_at(a, top - 4) == word_at(b, top - 4));
        lemma_same_below(a, b, top - 4 - size);
    }
}

/// The blocks lie one behind the other, from the bottom to `top`.
proof fn lemma_blocks(mem: Seq<u8>, top: int)
    requires
        chained(mem, top),
        0 <= top <= mem.len(),
    ensures
        top_of(blocks_below(mem, top)) == top,
        top == 0 <==> blocks_below(mem, top).len() == 0,
        forall|i: int|
            0 <= i < blocks_below(mem, top).len() ==> {
                let b = #[trigger] blocks_below(mem, top)[i];
                &&& 0 <= b.start < b.end <= top - FOOTER_SIZE
                &&& b.start == top_of(blocks_below(mem, top).take(i))
            },
        forall|i: int, j: int|
            0 <= i < j < blocks_below(mem, top).len() ==> (#[trigger] blocks_below(
                mem,
                top,
            )[i]).end + FOOTER_SIZE <= (#[trigger] blocks_below(mem, top)[j]).start,
    decreases top,
{
    if top > 0 {
        let word = word_at(mem, top - 4);
        let size = word % 0x8000_0000;
        let start = top - 4 - size;
        lemma_chained_top(mem, start);
        lemma_blocks(mem, start);
        let below = blocks_below(mem, start);
        let all = blocks_below(mem, top);
        assert(all.take(all.len() - 1) =~= below);
        assert forall|i: int| 0 <= i < all.len() implies {
            let b = #[trigger] all[i];
            &&& 0 <= b.start < b.end <= top - FOOTER_SIZE
            &&& b.start == top_of(all.take(i))
        } by {
            if i < below.len() {
                assert(all[i] == below[i]);
                assert(all.take(i) =~= below.take(i));
            }
        }
        assert forall|i: int, j: int| 0 <= i < j < all.len() implies (#[trigger] all[i]).end
            + FOOTER_SIZE <= (#[trigger] all[j]).start by {
            assert(all[i] == below[i]);
            if j < below.len() {
                assert(all[j] == below[j]);
            }
        }
    }
}

proof fn lemma_chained_top(mem: Seq<u8>, top: int)
    requires
        chained(mem, top),
    ensures
        top >= 0,
{
}

/// Marking one footer changes that block alone.
#[verifier::spinoff_prover]
proof fn lemma_marked(mem: Seq<u8>, after: Seq<u8>, top: int, k: int)
    requires
        chained(mem, top),
        0 <= top <= mem.len(),
        after.len() == mem.len(),
        0 <= k < blocks_below(mem, top).len(),
        !blocks_below(mem, top)[k].dead,
        ({
            let at = blocks_below(mem, top)[k].end;
            &&& word_at(after, at) == word_at(mem, at) + 0x8000_0000
            &&& forall|i: int| 0 <= i < mem.len() && !(at <= i < at + 4) ==> after[i] == mem[i]
        }),
    ensures
        chained(after, top),
        blocks_below(after, top) == blocks_below(mem, top).update(
            k,
            Block { dead: true, ..blocks_below(mem, top)[k] },
        ),
    decreases top,
{
    lemma_blocks(mem, top);
    let word = word_at(mem, top - 4);
    let size = word % 0x8000_0000;
    let start = top - 4 - size;
    let below = blocks_below(mem, start);
    let all = blocks_below(mem, top);
    let at = all[k].end;
    lemma_blocks(mem, start);
    if k == below.len() {
        lemma_same_below(mem, after, start);
    } else {
        assert(all[k] == below[k]);
        assert(word_at(after, top - 4) == word);
        lemma_marked(mem, after, start, k);
    }
    assert(blocks_below(after, top) =~= all.update(k, Block { dead: true, ..all[k] }));
}

fn read_word(mem: &Vec<u8>, at: usize) -> (word: u32)
    requires
        at + 4 <= mem@.len(),
    ensures
        word == word_at(mem@, at as int),
{
    let n: usize = mem.len();
    assert(at + 4 <= n);
    mem[at] as u32 + 256 * mem[at + 1] as u32 + 65536 * mem[at + 2] as u32 + 16777216
        * mem[at + 3] as u32
}

fn write_word(mem: &mut Vec<u8>, at: usize, word: u32)
    requires
        at + 4 <= old(mem)@.len(),
    ensures
        final(mem)@.len() == old(mem)@.len(),
        word_at(final(mem)@, at as int) == word,
        forall|i: int|
            0 <= i < old(mem)@.len() && !(at <= i < at + 4) ==> final(mem)@[i] == old(mem)@[i],
{
    let n: usize = mem.len();
    assert(at + 4 <= n);
    mem.set(at, (word % 256) as u8);
    mem.set(at + 1, (word / 256 % 256) as u8);
    mem.set(at + 2, (word / 65536 % 256) as u8);
    mem.set(at + 3, (word / 16777216) as u8);
}

/// Memory that is handed out in blocks.
pub struct Arena {
    memory: Vec<u8>,
    offset: u32,
    capacity: u32,
}

impl Arena {
    /// The footers describe blocks from the bottom of the memory up, and the
    /// topmost of them is in use.
    pub closed spec fn wf(&self) -> bool {
        let blocks = blocks_below(self.memory@, self.offset as int);
        &&& self.memory@.len() == self.capacity
        &&& self.offset <= self.capacity
        &&& chained(self.memory@, self.offset as int)
        &&& blocks.len() > 0 ==> !blocks.last().dead
    }

    pub closed spec fn memory_view(&self) -> Seq<u8> {
        self.memory@
    }

    /// Where the next block can start.
    pub closed spec fn top(&self) -> int {
        self.offset as int
    }

    pub closed spec fn limit(&self) -> int {
        self.capacity as int
    }

    /// The blocks, lowest first.
    pub open spec fn blocks(&self) -> Seq<Block> {
        blocks_below(self.memory_view(), self.top())
    }

    /// Whether `a` is block `k`, which was not given back.
    pub open spec fn is_block(&self, a: ArenaAlloc, k: int) -> bool {
        &&& 0 <= k < self.blocks().len()
        &&& !self.blocks()[k].dead
        &&& self.blocks()[k].end == a.offset + a.size
        &&& self.blocks()[k].start <= a.offset
    }

    /// Whether `a` is a block that was not given back.
    pub open spec fn holds(&self, a: ArenaAlloc) -> bool {
        exists|k: int| self.is_block(a, k)
    }

    /// The bytes of a block.
    pub open spec fn bytes_of(&self, a: ArenaAlloc) -> Seq<u8> {
        self.memory_view().subrange(a.offset as int, a.offset + a.size)
    }

    /// What holds of every well-formed arena: the blocks lie one behind the
    /// other, from the bottom to the top, and within the memory, and the
    /// topmost is in use.
    pub proof fn blocks_are_stacked(&self)
        requires
            self.wf(),
        ensures
            0 <= self.top() <= self.limit() == self.memory_view().len(),
            top_of(self.blocks()) == self.top(),
            forall|i: int|
                0 <= i < self.blocks().len() ==> 0 <= (#[trigger] self.blocks()[i]).start
                    < self.blocks()[i].end <= self.top() - FOOTER_SIZE,
            forall|i: int, j: int|
                0 <= i < j < self.blocks().len() ==> (#[trigger] self.blocks()[i]).end
                    + FOOTER_SIZE <= (#[trigger] self.blocks()[j]).start,
            self.blocks().len() > 0 ==> !self.blocks().last().dead,
    {
        lemma_blocks(self.memory@, self.offset as int);
    }

    /// Whether the arena can be asked for `size` bytes aligned to `align`: the
    /// sums stay below the largest offset, and a block that fits is one that a
    /// footer can record.
    pub open spec fn can_ask(&self, size: int, align: int) -> bool {
        let end = classes::align_up(self.top(), align) + size;
        size > 0 ==> {
            &&& self.top() + align - 1 <= u32::MAX
            &&& end <= u32::MAX
            &&& end + FOOTER_SIZE <= self.limit() ==> end - self.top() < 0x8000_0000
        }
    }

    /// An arena of `capacity` bytes.
    pub fn new(capacity: u32) -> (arena: Self)
        ensures
            arena.wf(),
            arena.limit() == capacity,
            arena.top() == 0,
            arena.blocks() == Seq::<Block>::empty(),
    {
        let mut memory: Vec<u8> = Vec::new();
        memory.resize(capacity as usize, 0);
        Arena { memory, offset: 0, capacity }
    }

    /// Where the next block can start.
    pub fn offset(&self) -> (offset: u32)
        ensures
            offset == self.top(),
    {
        self.offset
    }

    pub fn capacity(&self) -> (capacity: u32)
        ensures
            capacity == self.limit(),
    {
        self.capacity
    }

    /// A block of the given layout. Nothing when it is empty or does not fit.
    pub fn allocate(&mut self, layout: Layout) -> (block: Option<ArenaAlloc>)
        requires
            old(self).wf(),
            old(self).can_ask(layout.bytes(), layout.alignment()),
        ensures
            final(self).wf(),
            final(self).limit() == old(self).limit(),
            ({
                let at = classes::align_up(old(self).top(), layout.alignment());
                let end = at + layout.bytes();
                match block {
                    Some(a) => {
                        &&& layout.bytes() > 0
                        &&& end + FOOTER_SIZE <= old(self).limit()
                        &&& a.offset == at
                        &&& a.size == layout.bytes()
                        &&& final(self).top() == end + FOOTER_SIZE
                        &&& final(self).blocks() == old(self).blocks().push(
                            Block { start: old(self).top(), end, dead: false },
                        )
                        &&& final(self).is_block(a, old(self).blocks().len() as int)
                        &&& forall|i: int|
                            0 <= i < end ==> final(self).memory_view()[i] == old(
                                self,
                            ).memory_view()[i]
                    },
                    None => {
                        &&& layout.bytes() == 0 || end + FOOTER_SIZE > old(self).limit()
                        &&& *final(self) == *old(self)
                    },
                }
            }),
    {
        proof {
            use_type_invariant(&layout);
            classes::lemma_align_up(self.offset as int, layout.align as int);
        }
        if layout.size == 0 {
            return None;
        }
        let align: u64 = layout.align as u64;
        let aligned: u64 = (self.offset as u64 + (align - 1)) / align * align;
        let padded: u64 = aligned + layout.size as u64;
        if padded + FOOTER_SIZE as u64 > self.capacity as u64 {
            return None;
        }
        let size: u32 = (padded - self.offset as u64) as u32;
        let ghost before = self.memory@;
        let ghost top = self.offset as int;
        write_word(&mut self.memory, padded as usize, size);
        self.offset = padded as u32 + FOOTER_SIZE;
        proof {
            lemma_same_below(before, self.memory@, top);
            assert(self.blocks() =~= blocks_below(before, top).push(
                Block { start: top, end: padded as int, dead: false },
            ));
        }
        Some(ArenaAlloc { offset: aligned as u32, size: layout.size as u32 })
    }

    /// A block for a `T`.
    pub fn alloc_type<T>(&mut self) -> (block: Option<ArenaAlloc>)
        requires
            old(self).wf(),
            align_of::<T>() <= u32::MAX,
            classes::power_of_two(align_of::<T>() as u32),
            old(self).can_ask(size_of::<T>() as int, align_of::<T>() as int),
        ensures
            final(self).wf(),
            final(self).limit() == old(self).limit(),
            ({
                let at = classes::align_up(old(self).top(), align_of::<T>() as int);
                let end = at + size_of::<T>();
                match block {
                    Some(a) => {
                        &&& size_of::<T>() > 0
                        &&& end + FOOTER_SIZE <= old(self).limit()
                        &&& a.offset == at
                        &&& a.size == size_of::<T>()
                        &&& final(self).top() == end + FOOTER_SIZE
                        &&& final(self).blocks() == old(self).blocks().push(
                            Block { start: old(self).top(), end, dead: false },
                        )
                        &&& final(self).is_block(a, old(self).blocks().len() as int)
                        &&& forall|i: int|
                            0 <= i < end ==> final(self).memory_view()[i] == old(
                                self,
                            ).memory_view()[i]
                    },
                    None => {
                        &&& size_of::<T>() == 0 || end + FOOTER_SIZE > old(self).limit()
                        &&& *final(self) == *old(self)
                    },
                }
            }),
    {
        let size: usize = core::mem::size_of::<T>();
        let align: usize = core::mem::align_of::<T>();
        let layout: Layout = Layout::from_size_align(size, align as u32).unwrap();
        self.allocate(layout)
    }

    /// A block of the given layout that holds `bytes`.
    pub fn alloc_write(&mut self, layout: Layout, bytes: &[u8]) -> (block: Option<ArenaAlloc>)
        requires
            old(self).wf(),
            old(self).can_ask(layout.bytes(), layout.alignment()),
            bytes@.len() == layout.bytes(),
        ensures
            final(self).wf(),
            final(self).limit() == old(self).limit(),
            ({
                let at = classes::align_up(old(self).top(), layout.alignment());
                let end = at + layout.bytes();
                match block {
                    Some(a) => {
                        &&& layout.bytes() > 0
                        &&& end + FOOTER_SIZE <= old(self).limit()
                        &&& a.offset == at
                        &&& a.size == layout.bytes()
                        &&& final(self).top() == end + FOOTER_SIZE
                        &&& final(self).blocks() == old(self).blocks().push(
                            Block { start: old(self).top(), end, dead: false },
                        )
                        &&& final(self).is_block(a, old(self).blocks().len() as int)
                        &&& final(self).bytes_of(a) == bytes@
                        &&& forall|i: int|
                            0 <= i < at ==> final(self).memory_view()[i] == old(
                                self,
                            ).memory_view()[i]
                    },
                    None => {
                        &&& layout.bytes() == 0 || end + FOOTER_SIZE > old(self).limit()
                        &&& *final(self) == *old(self)
                    },
                }
            }),
    {
        proof {
            use_type_invariant(&layout);
            classes::lemma_align_up(self.offset as int, layout.align as int);
        }
        match self.allocate(layout) {
            Some(a) => {
                self.write(&a, bytes);
                Some(a)
            },
            None => None,
        }
    }

    /// Fills a block.
    pub fn write(&mut self, a: &ArenaAlloc, bytes: &[u8])
        requires
            old(self).wf(),
            old(self).holds(*a),
            bytes@.len() == a.size,
        ensures
            final(self).wf(),
            final(self).limit() == old(self).limit(),
            final(self).top() == old(self).top(),
            final(self).blocks() == old(self).blocks(),
            final(self).bytes_of(*a) == bytes@,
            forall|i: int|
                0 <= i < old(self).memory_view().len() && !(a.offset <= i < a.offset + a.size)
                    ==> final(self).memory_view()[i] == old(self).memory_view()[i],
    {
        proof {
            self.blocks_are_stacked();
        }
        let ghost before = self.memory@;
        let ghost k = choose|k: int| self.is_block(*a, k);
        let start: usize = a.offset as usize;
        let n: usize = self.memory.len();
        let mut i: usize = 0;
        while i < bytes.len()
            invariant
                n == before.len(),
                i <= bytes@.len(),
                bytes@.len() == a.size,
                start == a.offset,
                self.memory@.len() == before.len(),
                start + bytes@.len() <= before.len(),
                self.offset == old(self).offset,
                self.capacity == old(self).capacity,
                forall|j: int| 0 <= j < i ==> self.memory@[start + j] == bytes@[j],
                forall|j: int|
                    0 <= j < before.len() && !(start <= j < start + i) ==> self.memory@[j]
                        == before[j],
            decreases bytes@.len() - i,
        {
            self.memory.set(start + i, bytes[i]);
            i = i + 1;
        }
        proof {
            lemma_payload_is_free(before, self.memory@, self.offset as int, k, a.offset as int);
            assert(self.bytes_of(*a) =~= bytes@) by {
                assert forall|j: int| 0 <= j < bytes@.len() implies self.memory@[start + j]
                    == bytes@[j] by {}
            }
        }
    }

    /// The bytes of a block.
    pub fn read(&self, a: &ArenaAlloc) -> (bytes: Vec<u8>)
        requires
            self.wf(),
            self.holds(*a),
        ensures
            bytes@ == self.bytes_of(*a),
    {
        proof {
            self.blocks_are_stacked();
        }
        crate::lines::copy_range(
            self.memory.as_slice(),
            a.offset as usize,
            a.offset as usize + a.size as usize,
        )
    }

    /// The size that the footer behind a block records, and whether the block
    /// was given back.
    pub fn footer(&self, a: &ArenaAlloc) -> (footer: (u32, bool))
        requires
            self.wf(),
            exists|k: int|
                0 <= k < self.blocks().len() && (#[trigger] self.blocks()[k]).end == a.offset
                    + a.size,
        ensures
            forall|k: int|
                0 <= k < self.blocks().len() && (#[trigger] self.blocks()[k]).end == a.offset
                    + a.size ==> footer.0 == self.blocks()[k].end - self.blocks()[k].start
                    && footer.1 == self.blocks()[k].dead,
    {
        proof {
            self.blocks_are_stacked();
            assert forall|k: int| 0 <= k < self.blocks().len() implies word_at(
                self.memory@,
                (#[trigger] self.blocks()[k]).end,
            ) == (self.blocks()[k].end - self.blocks()[k].start) + if self.blocks()[k].dead {
                0x8000_0000int
            } else {
                0
            } && 0 < self.blocks()[k].end - self.blocks()[k].start < 0x8000_0000 by {
                lemma_footer(self.memory@, self.offset as int, k);
            }
        }
        let word: u32 = read_word(&self.memory, a.offset as usize + a.size as usize);
        (word % DEALLOCATED_BIT, word >= DEALLOCATED_BIT)
    }

    /// Gives a block back. The topmost blocks that were given back are
    /// reclaimed.
    pub fn dealloc(&mut self, a: ArenaAlloc)
        requires
            old(self).wf(),
            old(self).holds(a),
        ensures
            final(self).wf(),
            final(self).limit() == old(self).limit(),
            exists|k: int|
                {
                    &&& #[trigger] old(self).is_block(a, k)
                    &&& final(self).blocks() == trimmed(
                        old(self).blocks().update(k, Block { dead: true, ..old(self).blocks()[k] }),
                    )
                },
            final(self).top() == top_of(final(self).blocks()),
            forall|b: ArenaAlloc, i: int|
                #![trigger old(self).is_block(b, i)]
                old(self).is_block(b, i) && b.offset + b.size != a.offset + a.size
                    ==> final(self).bytes_of(b) == old(self).bytes_of(b),
    {
        proof {
            self.blocks_are_stacked();
        }
        let ghost before = self.memory@;
        let ghost k = choose|k: int| self.is_block(a, k);
        let ghost marked = self.blocks().update(k, Block { dead: true, ..self.blocks()[k] });
        let at: usize = a.offset as usize + a.size as usize;
        proof {
            lemma_footer(before, self.offset as int, k);
        }
        let word: u32 = read_word(&self.memory, at);
        write_word(&mut self.memory, at, word + DEALLOCATED_BIT);
        proof {
            lemma_marked(before, self.memory@, self.offset as int, k);
        }
        while self.offset > 0
            invariant
                self.memory@.len() == self.capacity,
                self.offset <= self.capacity,
                chained(self.memory@, self.offset as int),
                self.capacity == old(self).capacity,
                trimmed(self.blocks()) == trimmed(marked),
                forall|i: int|
                    0 <= i < before.len() && !(at <= i < at + 4) ==> self.memory@[i] == before[i],
                self.memory@.len() == before.len(),
            ensures
                self.blocks() == trimmed(marked),
            decreases self.offset,
        {
            let ghost now = self.blocks();
            proof {
                lemma_blocks(self.memory@, self.offset as int);
                lemma_footer(self.memory@, self.offset as int, now.len() - 1);
            }
            let top: u32 = read_word(&self.memory, (self.offset - FOOTER_SIZE) as usize);
            if top < DEALLOCATED_BIT {
                break;
            }
            let size: u32 = top - DEALLOCATED_BIT;
            self.offset = self.offset - FOOTER_SIZE - size;
            assert(self.blocks() =~= now.drop_last());
        }
        proof {
            lemma_trimmed_top(marked);
            self.blocks_are_stacked();
            assert forall|b: ArenaAlloc, i: int|
                #![trigger old(self).is_block(b, i)]
                old(self).is_block(b, i) && b.offset + b.size != a.offset
                    + a.size implies self.bytes_of(b) == old(self).bytes_of(b) by {
                let x = old(self).blocks()[i];
                let y = old(self).blocks()[k];
                assert(i != k);
                if i < k {
                    assert(x.end + FOOTER_SIZE <= y.start);
                } else {
                    assert(y.end + FOOTER_SIZE <= x.start);
                }
                assert(self.bytes_of(b) =~= old(self).bytes_of(b));
            }
        }
    }
}

/// A footer holds the distance back to where its block starts.
proof fn lemma_footer(mem: Seq<u8>, top: int, k: int)
    requires
        chained(mem, top),
        0 <= top <= mem.len(),
        0 <= k < blocks_below(mem, top).len(),
    ensures
        ({
            let b = blocks_below(mem, top)[k];
            word_at(mem, b.end) == (b.end - b.start) + if b.dead {
                0x8000_0000int
            } else {
                0
            }
        }),
        0 < blocks_below(mem, top)[k].end - blocks_below(mem, top)[k].start < 0x8000_0000,
    decreases top,
{
    let word = word_at(mem, top - 4);
    let start = top - 4 - word % 0x8000_0000;
    lemma_chained_top(mem, start);
    let below = blocks_below(mem, start);
    if k < below.len() {
        assert(blocks_below(mem, top)[k] == below[k]);
        lemma_footer(mem, start, k);
    }
}

/// Writing into a block's payload changes no footer.
proof fn lemma_payload_is_free(mem: Seq<u8>, after: Seq<u8>, top: int, k: int, from: int)
    requires
        chained(mem, top),
        0 <= top <= mem.len(),
        after.len() == mem.len(),
        0 <= k < blocks_below(mem, top).len(),
        blocks_below(mem, top)[k].start <= from,
        forall|i: int|
            0 <= i < mem.len() && !(from <= i < blocks_below(mem, top)[k].end) ==> after[i]
                == mem[i],
    ensures
        chained(after, top),
        blocks_below(after, top) == blocks_below(mem, top),
    decreases top,
{
    lemma_blocks(mem, top);
    let word = word_at(mem, top - 4);
    let start = top - 4 - word % 0x8000_0000;
    let below = blocks_below(mem, start);
    let all = blocks_below(mem, top);
    lemma_blocks(mem, start);
    assert(word_at(after, top - 4) == word);
    if k == below.len() {
        lemma_same_below(mem, after, start);
    } else {
        assert(all[k] == below[k]);
        lemma_payload_is_free(mem, after, start, k, from);
    }
}

proof fn lemma_trimmed_top(blocks: Seq<Block>)
    ensures
        trimmed(blocks).len() > 0 ==> !trimmed(blocks).last().dead,
    decreases blocks.len(),
{
    if blocks.len() > 0 && blocks.last().dead {
        lemma_trimmed_top(blocks.drop_last());
    }
}

/// Blocks that are all given back are all reclaimed.
pub proof fn all_dead_is_empty(blocks: Seq<Block>)
    requires
        forall|i: int| 0 <= i < blocks.len() ==> (#[trigger] blocks[i]).dead,
    ensures
        trimmed(blocks) == Seq::<Block>::empty(),
    decreases blocks.len(),
{
    if blocks.len() > 0 {
        all_dead_is_empty(blocks.drop_last());
    }
}

/// A block below one that is in use stays, though it was given back.
pub proof fn live_top_keeps_all(blocks: Seq<Block>)
    requires
        blocks.len() > 0,
        !blocks.last().dead,
    ensures
        trimmed(blocks) == blocks,
{
}

/// Taking a block and giving it back leaves the blocks as they were.
pub proof fn allocation_is_undone(arena: Arena, b: Block)
    requires
        arena.wf(),
    ensures
        trimmed(arena.blocks().push(Block { dead: true, ..b })) == arena.blocks(),
{
    let blocks = arena.blocks();
    arena.blocks_are_stacked();
    assert(blocks.push(Block { dead: true, ..b }).drop_last() =~= blocks);
    assert(trimmed(blocks) == blocks);
}

/// Giving blocks back reclaims a run of dead blocks at the top, as long as
/// there is one, and keeps everything below it.
pub proof fn only_dead_blocks_are_reclaimed(blocks: Seq<Block>, i: int)
    ensures
        ({
            let left = trimmed(blocks);
            &&& left.len() <= blocks.len()
            &&& left == blocks.take(left.len() as int)
            &&& left.len() <= i < blocks.len() ==> blocks[i].dead
            &&& left.len() > 0 ==> !left.last().dead
        }),
    decreases blocks.len(),
{
    if blocks.len() > 0 && blocks.last().dead {
        only_dead_blocks_are_reclaimed(blocks.drop_last(), i);
        let left = trimmed(blocks);
        assert(left =~= blocks.take(left.len() as int));
        if i < blocks.len() - 1 && left.len() <= i {
            assert(blocks.drop_last()[i].dead);
        }
    } else {
        assert(blocks.take(blocks.len() as int) =~= blocks);
    }
}

/// The next block begins behind the four bytes of the topmost block's footer,
/// or at the bottom when there is none.
pub proof fn next_block_follows_the_footer(blocks: Seq<Block>)
    ensures
        blocks.len() == 0 ==> top_of(blocks) == 0,
        blocks.len() > 0 ==> top_of(blocks) == blocks[blocks.len() - 1].end + 4,
{
}

} // verus!
