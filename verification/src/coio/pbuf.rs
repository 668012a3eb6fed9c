//! One size class of the provided buffer pool: slots that the kernel picks
//! from a descriptor ring.

use vstd::prelude::*;

use crate::coio::buf::Bytes;
use crate::coio::buf::BytesMut;
use crate::coio::buf::Handle;
use crate::coio::buf::Ref;
use crate::coio::buf::RefMut;
use crate::coio::buf::Slice;
use crate::coio::buf::SliceMut;
use crate::coio::buf::Span;
use crate::coio::classes;
use crate::coio::pool;
use crate::coio::pool::Shape;
use crate::coio::pool::Slab;
use crate::coio::tracker;
use crate::coio::tracker::BorrowTracker;

verus! {

pub const PAGE_SIZE: usize = 4096;

/// Bytes of one descriptor in the ring.
pub const DESCRIPTOR_SIZE: usize = 16;

/// `n` rounded up to whole pages.
pub fn page_align(n: usize) -> (aligned: usize)
    requires
        n + PAGE_SIZE - 1 <= usize::MAX,
    ensures
        aligned == classes::align_up(n as int, PAGE_SIZE as int),
{
    let m: usize = n + (PAGE_SIZE - 1);
    assert(m & !4095usize == m / 4096 * 4096) by (bit_vector);
    m & !(PAGE_SIZE - 1)
}

/// A buffer offered to the kernel.
#[derive(Clone, Copy, Debug, PartialEq, Eq, Structural)]
pub struct RingBuf {
    /// Where the buffer starts.
    pub offset: usize,
    pub len: u32,
    /// The slot that the kernel reports back.
    pub bid: u16,
}

/// Whether a count has a single bit set.
pub open spec fn ring_count_ok(count: u16) -> bool {
    0 < count <= 32768 && count & ((count - 1) as u16) == 0
}

/// Slots that the kernel hands out, and the ring that offers them to it.
pub struct ProvidedBufferPool {
    buf_count: u16,
    size: u32,
    base: usize,
    class: u8,
    ring: Vec<RingBuf>,
    tail: u16,
    pub tracker: BorrowTracker,
}

impl ProvidedBufferPool {
    /// The descriptors in the ring.
    pub closed spec fn ring_view(&self) -> Seq<RingBuf> {
        self.ring@
    }

    /// How many descriptors were ever offered, modulo 65536.
    pub closed spec fn tail_view(&self) -> u16 {
        self.tail
    }

    /// The descriptor of slot `local`.
    pub open spec fn descriptor(&self, local: u16) -> RingBuf {
        RingBuf {
            offset: self.shape().slot_start(local as int) as usize,
            len: self.shape().size,
            bid: local,
        }
    }

    /// What a view of slot `local` names.
    pub open spec fn handle_of(&self, local: u16, generation: u32) -> Handle {
        Handle {
            provided: true,
            bid: classes::packed(self.shape().class as u32, local as u32),
            generation,
            offset: 0,
        }
    }

    /// Offers `count` slots of `size` bytes from `base` on, in order.
    pub fn new(base: usize, count: u16, size: u32, class: u8) -> (pool: Self)
        requires
            ring_count_ok(count),
            size > 0,
            class < 128,
            base + count * size <= usize::MAX,
        ensures
            pool.wf(),
            pool.shape() == (Shape { base, size, class }),
            pool.counts().len() == count,
            forall|i: int| 0 <= i < count ==> #[trigger] pool.counts()[i] == 0,
            pool.ring_view().len() == count,
            forall|i: int|
                0 <= i < count ==> #[trigger] pool.ring_view()[i] == pool.descriptor(i as u16),
            pool.tail_view() == count,
    {
        let mut ring: Vec<RingBuf> = Vec::with_capacity(count as usize);
        let mut local: u16 = 0;
        while local < count
            invariant
                local <= count,
                base + count * size <= usize::MAX,
                ring@.len() == local,
                forall|i: int|
                    0 <= i < local ==> #[trigger] ring@[i] == (RingBuf {
                        offset: (base + i * size) as usize,
                        len: size,
                        bid: i as u16,
                    }),
            decreases count - local,
        {
            assert(local * size <= count * size) by (nonlinear_arith)
                requires
                    local <= count,
                    size >= 0,
            ;
            assert(0 <= local * size) by (nonlinear_arith)
                requires
                    0 <= local,
                    0 <= size,
            ;
            ring.push(
                RingBuf { offset: base + local as usize * size as usize, len: size, bid: local },
            );
            local = local + 1;
        }
        ProvidedBufferPool {
            buf_count: count,
            size,
            base,
            class,
            ring,
            tail: count,
            tracker: BorrowTracker::new(count as usize),
        }
    }

    /// The buffer group that the kernel knows the pool by.
    pub fn bgid(&self) -> (class: u8)
        ensures
            class == self.shape().class,
    {
        self.class
    }

    /// How many descriptors were ever offered, modulo 65536.
    pub fn ring_tail(&self) -> (tail: u16)
        ensures
            tail == self.tail_view(),
    {
        self.tail
    }

    /// The descriptors in the ring.
    pub fn ring(&self) -> (ring: &Vec<RingBuf>)
        ensures
            ring@ == self.ring_view(),
    {
        &self.ring
    }

    /// Bytes of the ring's memory: its descriptors, in whole pages.
    pub fn ring_size(&self) -> (n: usize)
        requires
            self.wf(),
        ensures
            n == classes::align_up(self.counts().len() * DESCRIPTOR_SIZE, PAGE_SIZE as int),
    {
        page_align(self.buf_count as usize * DESCRIPTOR_SIZE)
    }

    /// Offers slot `local` to the kernel again.
    pub fn recycle_buffer(&mut self, local: u16)
        requires
            old(self).wf(),
            local < old(self).counts().len(),
        ensures
            final(self).wf(),
            final(self).shape() == old(self).shape(),
            final(self).counts() == old(self).counts(),
            final(self).ring_view() == old(self).ring_view().update(
                old(self).tail_view() as int % old(self).counts().len() as int,
                old(self).descriptor(local),
            ),
            final(self).tail_view() == (old(self).tail_view() + 1) % 65536,
    {
        let mask: u16 = self.buf_count - 1;
        let t: u16 = self.tail;
        let c: u16 = self.buf_count;
        assert(t & ((c - 1) as u16) == t % c) by (bit_vector)
            requires
                0 < c,
                c & ((c - 1) as u16) == 0,
        ;
        let index: u16 = self.tail & mask;
        let offset: usize = pool::offset_in(
            self.base,
            self.size,
            self.buf_count as usize,
            local as u32,
        );
        self.ring.set(index as usize, RingBuf { offset, len: self.size, bid: local });
        self.tail = self.tail.wrapping_add(1);
    }

    /// Hands slot `local`, which the kernel picked and filled with `len`
    /// bytes, out as a shared view.
    pub fn select(&mut self, local: u16, len: u32, generation: u32) -> (view: Bytes)
        requires
            old(self).wf(),
            local < old(self).counts().len(),
            old(self).counts()[local as int] == 0,
            len <= old(self).shape().size,
        ensures
            final(self).wf(),
            final(self).shape() == old(self).shape(),
            final(self).counts() == old(self).counts().update(local as int, 1i32),
            final(self).ring_view() == old(self).ring_view(),
            final(self).tail_view() == old(self).tail_view(),
            view@ == (Span { at: old(self).handle_of(local, generation), len }),
    {
        self.tracker.take_shared(local as u32);
        Slice::new(Ref::new(self.handle(local, generation)), len)
    }

    /// Hands slot `local`, which the kernel picked and filled with `len`
    /// bytes, out as an exclusive view.
    pub fn select_mut(&mut self, local: u16, len: u32, generation: u32) -> (view: BytesMut)
        requires
            old(self).wf(),
            local < old(self).counts().len(),
            old(self).counts()[local as int] == 0,
            len <= old(self).shape().size,
        ensures
            final(self).wf(),
            final(self).shape() == old(self).shape(),
            final(self).counts() == old(self).counts().update(local as int, -1i32),
            final(self).ring_view() == old(self).ring_view(),
            final(self).tail_view() == old(self).tail_view(),
            view@ == (Span { at: old(self).handle_of(local, generation), len }),
            view.limit() is None,
    {
        self.tracker.take_shared(local as u32);
        self.tracker.upgrade(local as u32);
        assert(self.tracker@ =~= old(self).tracker@.update(local as int, -1i32));
        SliceMut::new(RefMut::new(self.handle(local, generation)), len)
    }

    fn handle(&self, local: u16, generation: u32) -> (at: Handle)
        ensures
            at == self.handle_of(local, generation),
    {
        Handle {
            provided: true,
            bid: classes::pack_bid(self.class as u32, local as u32),
            generation,
            offset: 0,
        }
    }

    /// The first `len` bytes of slot `local` within `memory`.
    pub fn get_slice(&self, memory: &Vec<u8>, local: u16, len: usize) -> (bytes: Vec<u8>)
        requires
            self.wf(),
            local < self.counts().len(),
            len <= self.shape().size,
            self.shape().slot_start(self.counts().len() as int) <= memory@.len(),
        ensures
            bytes@ == memory@.subrange(
                self.shape().slot_start(local as int),
                self.shape().slot_start(local as int) + len,
            ),
    {
        let start: usize = pool::slot_offset(self, local as u32);
        crate::lines::copy_range(memory.as_slice(), start, start + len)
    }
}

impl Slab for ProvidedBufferPool {
    closed spec fn wf(&self) -> bool {
        &&& self.size > 0
        &&& ring_count_ok(self.buf_count)
        &&& self.tracker@.len() == self.buf_count
        &&& self.ring@.len() == self.buf_count
        &&& self.base + self.buf_count * self.size <= usize::MAX
    }

    closed spec fn counts(&self) -> Seq<i32> {
        self.tracker@
    }

    closed spec fn shape(&self) -> Shape {
        Shape { base: self.base, size: self.size, class: self.class }
    }

    open spec fn same_stock(&self, other: &Self) -> bool {
        self.ring_view() == other.ring_view() && self.tail_view() == other.tail_view()
    }

    open spec fn put_back(&self, other: &Self, local: u32) -> bool {
        &&& self.ring_view() == other.ring_view().update(
            other.tail_view() as int % other.counts().len() as int,
            other.descriptor(local as u16),
        )
        &&& self.tail_view() == (other.tail_view() + 1) % 65536
    }

    proof fn slots_fit(&self) {
    }

    fn slot_size(&self) -> u32 {
        self.size
    }

    fn base(&self) -> usize {
        self.base
    }

    fn slot_count(&self) -> usize {
        self.tracker.slot_count()
    }

    fn clone_shared(&mut self, local: u32) {
        self.tracker.clone_shared(local);
    }

    fn split_exclusive(&mut self, local: u32) {
        self.tracker.split_exclusive(local);
    }

    fn upgrade(&mut self, local: u32) {
        self.tracker.upgrade(local);
    }

    fn downgrade(&mut self, local: u32) {
        self.tracker.downgrade(local);
    }

    fn drop_view(&mut self, exclusive: bool, local: u32) {
        if self.tracker.drop_view(exclusive, local) {
            self.recycle_buffer(local as u16);
        }
    }
}

/// Among the last `count` descriptors offered no two share a place in the
/// ring, also when the tail wraps around: a descriptor is overwritten only
/// after `count` more were offered.
pub proof fn offered_descriptors_keep_their_places(tail: u16, later: u16, count: u16)
    requires
        ring_count_ok(count),
        0 < later < count,
    ensures
        tail as int % count as int != (tail + later) % 65536 % count as int,
{
    let c: u32 = count as u32;
    assert(65536u32 % c == 0) by (bit_vector)
        requires
            0 < c <= 32768,
            c & ((c - 1) as u32) == 0,
    ;
    let n = count as int;
    let k = 65536int / n;
    let x = tail + later;
    vstd::arithmetic::div_mod::lemma_fundamental_div_mod(65536, n);
    assert(k > 0) by (nonlinear_arith)
        requires
            n * k == 65536,
            n > 0,
    ;
    vstd::arithmetic::div_mod::lemma_mod_mod(x, n, k);
    assert(x % 65536 % n == x % n);
    let q = tail as int / n;
    let r = tail as int % n;
    vstd::arithmetic::div_mod::lemma_fundamental_div_mod(tail as int, n);
    if r + later < n {
        vstd::arithmetic::div_mod::lemma_fundamental_div_mod_converse(x, n, q, r + later);
    } else {
        assert(n * (q + 1) == n * q + n) by (nonlinear_arith);
        vstd::arithmetic::div_mod::lemma_fundamental_div_mod_converse(
            x,
            n,
            q + 1,
            r + later - n,
        );
    }
}

/// A buffer is offered to the kernel as its slot: where the slot starts, its
/// whole size, and its number, under which it comes back. A view of it names
/// the slot from its first byte on.
pub proof fn slot_is_offered_whole(pool: ProvidedBufferPool, local: u16, generation: u32)
    requires
        pool.wf(),
        local < pool.counts().len(),
    ensures
        ({
            let d = pool.descriptor(local);
            let h = pool.handle_of(local, generation);
            &&& d.offset == pool.shape().base + local * pool.shape().size
            &&& d.len == pool.shape().size
            &&& d.bid == local
            &&& h.provided && h.offset == 0 && h.generation == generation
            &&& h.bid == pool.shape().class * 16777216 + local
        }),
{
    pool.slots_fit();
    pool::slots_are_disjoint(pool.shape(), local as int, pool.counts().len() as int);
    classes::buffer_id_layout(pool.shape().class as u32, local as u32);
}

/// A slot that was put back is offered at the ring's next place, and only that
/// place changes.
pub proof fn returned_slot_is_offered_next(
    before: ProvidedBufferPool,
    after: ProvidedBufferPool,
    local: u16,
    i: int,
)
    requires
        before.wf(),
        local < before.counts().len(),
        after.put_back(&before, local as u32),
        0 <= i < before.counts().len(),
        before.ring_view().len() == before.counts().len(),
    ensures
        i == before.tail_view() as int % before.counts().len() as int ==> after.ring_view()[i]
            == before.descriptor(local),
        i != before.tail_view() as int % before.counts().len() as int ==> after.ring_view()[i]
            == before.ring_view()[i],
        before.tail_view() < 65535 ==> after.tail_view() == before.tail_view() + 1,
        before.tail_view() == 65535 ==> after.tail_view() == 0,
{
}

/// How many slots a ring can have: a power of two, from 1 to 32768.
pub proof fn ring_has_a_power_of_two(i: u16, count: u16)
    requires
        i < 16,
    ensures
        ring_count_ok(1u16 << i),
        ring_count_ok(count) ==> 1 <= count <= 32768 && classes::power_of_two(count as u32),
{
    let p = 1u16 << i;
    assert(0 < p <= 32768 && p & ((p - 1) as u16) == 0) by (bit_vector)
        requires
            i < 16,
            p == 1u16 << i,
    ;
    if count > 0 {
        let wide = count as u32;
        let less = (count - 1) as u16;
        assert(count & less == 0 ==> wide & ((wide - 1) as u32) == 0) by (bit_vector)
            requires
                wide == count as u32,
                less == (count - 1) as u16,
                count > 0,
        ;
    }
}

/// A ring's memory is whole pages of 4096 bytes, enough for 16 bytes for each
/// descriptor and no page more.
pub proof fn ring_memory_is_whole_pages(count: int)
    requires
        0 <= count,
    ensures
        ({
            let n = classes::align_up(count * DESCRIPTOR_SIZE, PAGE_SIZE as int);
            n % 4096 == 0 && 16 * count <= n < 16 * count + 4096
        }),
{
    classes::lemma_align_up(count * DESCRIPTOR_SIZE, PAGE_SIZE as int);
}

} // verus!
