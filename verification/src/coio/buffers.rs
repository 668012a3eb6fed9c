//! The runtime's buffer memory: both pools over one slab, and the views that
//! borrow from them.

use vstd::arithmetic::div_mod::*;
use vstd::prelude::*;

use crate::coio::buf::Bytes;
use crate::coio::buf::Handle;
use crate::coio::buf::Span;
use crate::coio::classes;
use crate::coio::classes::SizeClass;
use crate::coio::classes::SizeClassLayout;
use crate::coio::fixed;
use crate::coio::fixed::FixedSlab;
use crate::coio::pbuf::ProvidedBufferPool;
use crate::coio::pool;
use crate::coio::pool::Pool;
use crate::coio::pool::Shape;
use crate::coio::pool::Slab;
use crate::coio::tracker;

verus! {

/// The error when no buffer is large enough.
pub const EFBIG: i32 = 27;

/// The error when every buffer of a size is in use.
pub const ENOBUFS: i32 = 105;

/// The largest alignment that any of the classes asks for.
pub open spec fn max_align(s: Seq<SizeClass>) -> int
    decreases s.len(),
{
    if s.len() == 0 {
        0
    } else {
        let a = max_align(s.drop_last());
        let b = classes::slot_align(s.last().size);
        if a < b {
            b
        } else {
            a
        }
    }
}

/// The alignment that the slab is laid out for: that of its most demanding
/// class.
pub open spec fn slab_align(provided: Seq<SizeClass>, fixed: Seq<SizeClass>) -> int {
    max_align(provided + fixed)
}

/// Where the fixed classes start, behind the provided ones.
pub open spec fn fixed_start_of(provided: Seq<SizeClass>, fixed: Seq<SizeClass>) -> int {
    classes::align_up(
        classes::total_of(classes::sorted(provided)),
        slab_align(provided, fixed),
    )
}

/// The size of the slab.
pub open spec fn slab_size(provided: Seq<SizeClass>, fixed: Seq<SizeClass>) -> int {
    fixed_start_of(provided, fixed) + classes::total_of(classes::sorted(fixed))
}

/// Whether pools can be built over these classes.
pub open spec fn pools_ok(provided: Seq<SizeClass>, fixed: Seq<SizeClass>) -> bool {
    &&& classes::classes_ok(provided, true)
    &&& classes::classes_ok(fixed, false)
    &&& provided.len() <= 128
    &&& classes::power_of_two(slab_align(provided, fixed) as u32)
    &&& slab_size(provided, fixed) <= u32::MAX
}

proof fn lemma_max_align(s: Seq<SizeClass>)
    ensures
        0 <= max_align(s) <= classes::BUFFER_MAX_ALIGN,
        forall|i: int|
            0 <= i < s.len() ==> classes::slot_align((#[trigger] s[i]).size) <= max_align(s),
    decreases s.len(),
{
    if s.len() > 0 {
        let t = s.drop_last();
        lemma_max_align(t);
        assert forall|i: int| 0 <= i < s.len() implies classes::slot_align((#[trigger] s[i]).size)
            <= max_align(s) by {
            if i < t.len() {
                assert(t[i] == s[i]);
            }
        }
    }
}

fn align_of_all(provided: &[SizeClass], fixed: &[SizeClass]) -> (align: u32)
    ensures
        align == slab_align(provided@, fixed@),
{
    let ghost all = provided@ + fixed@;
    let mut align: u32 = 0;
    let mut i: usize = 0;
    assert(all.take(0) =~= Seq::empty());
    while i < provided.len()
        invariant
            i <= provided@.len(),
            all == provided@ + fixed@,
            align == max_align(all.take(i as int)),
        decreases provided@.len() - i,
    {
        let c: SizeClass = provided[i];
        let a: u32 = if c.size < classes::BUFFER_MAX_ALIGN {
            c.size
        } else {
            classes::BUFFER_MAX_ALIGN
        };
        if align < a {
            align = a;
        }
        assert(all.take(i + 1).drop_last() =~= all.take(i as int));
        assert(all.take(i + 1).last() == c);
        i = i + 1;
    }
    let mut k: usize = 0;
    let n: usize = provided.len();
    while k < fixed.len()
        invariant
            k <= fixed@.len(),
            n == provided@.len(),
            all == provided@ + fixed@,
            align == max_align(all.take(n + k)),
        decreases fixed@.len() - k,
    {
        let c: SizeClass = fixed[k];
        let a: u32 = if c.size < classes::BUFFER_MAX_ALIGN {
            c.size
        } else {
            classes::BUFFER_MAX_ALIGN
        };
        if align < a {
            align = a;
        }
        assert(all.take(n + k + 1).drop_last() =~= all.take(n + k));
        assert(all.take(n + k + 1).last() == c);
        k = k + 1;
    }
    assert(all.take(n + k) =~= all);
    align
}

/// Whether pools can be built over these classes.
pub fn check_pools(provided: &[SizeClass], fixed: &[SizeClass]) -> (ok: bool)
    ensures
        ok == pools_ok(provided@, fixed@),
{
    if !classes::check_classes(provided, true) || !classes::check_classes(fixed, false) {
        return false;
    }
    if provided.len() > 128 {
        return false;
    }
    let align: u32 = align_of_all(provided, fixed);
    proof {
        lemma_max_align(provided@ + fixed@);
    }
    if !(align > 0 && align & (align - 1) == 0) {
        return false;
    }
    let p: Vec<SizeClassLayout> = classes::layout_classes(provided, true);
    let f: Vec<SizeClassLayout> = classes::layout_classes(fixed, false);
    proof {
        lemma_last_total(provided@, true);
        lemma_last_total(fixed@, false);
        classes::lemma_align_up(p@.last().total as int, align as int);
    }
    let a: u64 = align as u64;
    let start: u64 = (p[p.len() - 1].total + a - 1) / a * a;
    let total: u64 = start + f[f.len() - 1].total;
    total <= u32::MAX as u64
}

/// The last class's end is the end of all classes.
proof fn lemma_last_total(c: Seq<SizeClass>, rings: bool)
    requires
        classes::classes_ok(c, rings),
    ensures
        classes::layout_of(classes::sorted(c)).len() == c.len(),
        classes::layout_of(classes::sorted(c)).last().total == classes::total_of(
            classes::sorted(c),
        ),
        0 <= classes::total_of(classes::sorted(c)) <= u32::MAX,
        forall|i: int|
            0 <= i < c.len() ==> classes::class_ok(#[trigger] classes::sorted(c)[i], rings),
        forall|i: int|
            0 <= i < c.len() ==> (#[trigger] classes::layout_of(classes::sorted(c))[i]).base_offset
                == classes::base_of(classes::sorted(c).take(i + 1)),
        forall|i: int|
            0 <= i < c.len() ==> (#[trigger] classes::layout_of(classes::sorted(c))[i]).base_offset
                + classes::sorted(c)[i].count * classes::sorted(c)[i].size <= classes::total_of(
                classes::sorted(c),
            ),
{
    classes::sorting_orders_the_same_classes(c);
    let s = classes::sorted(c);
    assert(s.take(s.len() as int) =~= s);
    assert forall|i: int| 0 <= i < c.len() implies classes::class_ok(
        #[trigger] classes::sorted(c)[i],
        rings,
    ) by {
        assert(s.contains(s[i]));
        let m = choose|m: int| 0 <= m < c.len() && c[m] == s[i];
        assert(classes::class_ok(c[m], rings));
    }
    assert forall|k: int| 0 <= k < s.len() implies (#[trigger] s[k]).size > 0 by {
        assert(classes::class_ok(s[k], rings));
    }
    classes::lemma_totals(s);
    assert forall|i: int| 0 <= i < c.len() implies (#[trigger] classes::layout_of(
        s,
    )[i]).base_offset == classes::base_of(s.take(i + 1)) && classes::layout_of(s)[i].base_offset
        + s[i].count * s[i].size <= classes::total_of(s) by {
        let t = s.take(i + 1);
        assert(t.last() == s[i]);
        assert forall|k: int| 0 <= k < t.len() implies (#[trigger] t[k]).size > 0 by {
            assert(t[k] == s[k]);
        }
        classes::lemma_totals(t);
        classes::lemma_totals_grow(s, i + 1, s.len() as int);
        assert(s[i].count * s[i].size == s[i].size * s[i].count) by (nonlinear_arith);
    }
}

/// Where a slab's slots end.
pub open spec fn slab_end<S: Slab>(s: S) -> int {
    s.shape().slot_start(s.counts().len() as int)
}

/// The runtime's buffers: one slab of memory, the provided pool in its first
/// part and the fixed pool behind it. Places and alignments are counted from
/// the start of that memory.
pub struct Buffers {
    generation: u32,
    memory: Vec<u8>,
    provided: Pool<ProvidedBufferPool>,
    fixed: Pool<FixedSlab>,
}

impl Buffers {
    /// The run of the runtime that these buffers belong to.
    pub closed spec fn generation_view(&self) -> u32 {
        self.generation
    }

    pub closed spec fn memory_view(&self) -> Seq<u8> {
        self.memory@
    }

    pub closed spec fn provided_slabs(&self) -> Seq<ProvidedBufferPool> {
        self.provided.slab_seq()
    }

    pub closed spec fn fixed_slabs(&self) -> Seq<FixedSlab> {
        self.fixed.slab_seq()
    }

    pub closed spec fn provided_classes(&self) -> Seq<SizeClass> {
        self.provided.class_table()
    }

    pub closed spec fn fixed_classes(&self) -> Seq<SizeClass> {
        self.fixed.class_table()
    }

    /// The borrow counts of a pool, class by class.
    pub open spec fn counts(&self, provided: bool) -> Seq<Seq<i32>> {
        if provided {
            self.provided_slabs().map_values(|s: ProvidedBufferPool| s.counts())
        } else {
            self.fixed_slabs().map_values(|s: FixedSlab| s.counts())
        }
    }

    /// Where a class's slots are.
    pub open spec fn shape_of(&self, provided: bool, class: int) -> Shape {
        if provided {
            self.provided_slabs()[class].shape()
        } else {
            self.fixed_slabs()[class].shape()
        }
    }

    /// Everything but the borrow counts, the free slots and the rings.
    pub open spec fn same_layout(&self, other: &Self) -> bool {
        &&& self.generation_view() == other.generation_view()
        &&& self.provided_classes() == other.provided_classes()
        &&& self.fixed_classes() == other.fixed_classes()
        &&& self.provided_slabs().len() == other.provided_slabs().len()
        &&& self.fixed_slabs().len() == other.fixed_slabs().len()
        &&& forall|i: int|
            0 <= i < self.provided_slabs().len() ==> (#[trigger] self.provided_slabs()[i]).shape()
                == other.provided_slabs()[i].shape()
        &&& forall|i: int|
            0 <= i < self.fixed_slabs().len() ==> (#[trigger] self.fixed_slabs()[i]).shape()
                == other.fixed_slabs()[i].shape()
    }

    /// The slabs lie one behind the other: the provided ones, then the fixed
    /// ones.
    pub open spec fn ordered(&self) -> bool {
        &&& forall|i: int, j: int|
            0 <= i < j < self.provided_slabs().len() ==> slab_end(
                #[trigger] self.provided_slabs()[i],
            ) <= (#[trigger] self.provided_slabs()[j]).shape().base
        &&& forall|i: int, j: int|
            0 <= i < j < self.fixed_slabs().len() ==> slab_end(#[trigger] self.fixed_slabs()[i])
                <= (#[trigger] self.fixed_slabs()[j]).shape().base
        &&& forall|i: int, j: int|
            0 <= i < self.provided_slabs().len() && 0 <= j < self.fixed_slabs().len()
                ==> slab_end(#[trigger] self.provided_slabs()[i]) <= (
            #[trigger] self.fixed_slabs()[j]).shape().base
    }

    /// The slabs are well formed, know their class, have slots of its size, and
    /// lie within the memory one behind the other.
    pub open spec fn wf(&self) -> bool {
        &&& self.ordered()
        &&& self.provided_slabs().len() <= 128
        &&& self.fixed_slabs().len() <= 256
        &&& self.provided_slabs().len() == self.provided_classes().len()
        &&& self.fixed_slabs().len() == self.fixed_classes().len()
        &&& forall|i: int|
            0 <= i < self.provided_slabs().len() ==> {
                let s = #[trigger] self.provided_slabs()[i];
                &&& s.wf()
                &&& s.shape().class == i
                &&& s.shape().size == self.provided_classes()[i].size
                &&& s.shape().slot_start(s.counts().len() as int) <= self.memory_view().len()
            }
        &&& forall|i: int|
            0 <= i < self.fixed_slabs().len() ==> {
                let s = #[trigger] self.fixed_slabs()[i];
                &&& s.wf()
                &&& s.shape().class == i
                &&& s.shape().size == self.fixed_classes()[i].size
                &&& s.shape().slot_start(s.counts().len() as int) <= self.memory_view().len()
            }
    }

    /// Whether `at` belongs to this run.
    pub open spec fn live(&self, at: Handle) -> bool {
        at.generation == self.generation_view()
    }

    /// Whether `at` names a place in one of the slots.
    pub open spec fn knows(&self, at: Handle) -> bool {
        let class = (at.bid >> 24) as int;
        let local = (at.bid & 0x00FF_FFFF) as int;
        &&& class < self.counts(at.provided).len()
        &&& local < self.counts(at.provided)[class].len()
        &&& at.offset <= self.shape_of(at.provided, class).size
    }

    /// The borrow count of the slot that `at` names.
    pub open spec fn count_at(&self, at: Handle) -> i32 {
        self.counts(at.provided)[(at.bid >> 24) as int][(at.bid & 0x00FF_FFFF) as int]
    }

    /// Where in memory `at` is.
    pub open spec fn place_of(&self, at: Handle) -> int {
        self.shape_of(at.provided, (at.bid >> 24) as int).slot_start(
            (at.bid & 0x00FF_FFFF) as int,
        ) + at.offset
    }

    /// Whether the `len` bytes from `at` on lie within its slot.
    pub open spec fn covers(&self, span: Span) -> bool {
        &&& self.knows(span.at)
        &&& span.at.offset + span.len <= self.shape_of(
            span.at.provided,
            (span.at.bid >> 24) as int,
        ).size
    }

    /// The bytes that a view covers.
    pub open spec fn bytes_of(&self, span: Span) -> Seq<u8> {
        self.memory_view().subrange(
            self.place_of(span.at),
            self.place_of(span.at) + span.len,
        )
    }

    /// The same buffers but for the slab that `at` lies in, where the borrow
    /// count of the slot is now `count`.
    pub open spec fn recounted(before: &Self, after: &Self, at: Handle, count: int) -> bool {
        let class = (at.bid >> 24) as int;
        let local = (at.bid & 0x00FF_FFFF) as int;
        &&& after.same_layout(before)
        &&& after.memory_view() == before.memory_view()
        &&& after.counts(at.provided) == before.counts(at.provided).update(
            class,
            before.counts(at.provided)[class].update(local, count as i32),
        )
        &&& after.counts(!at.provided) == before.counts(!at.provided)
        &&& if at.provided {
            &&& after.fixed_slabs() == before.fixed_slabs()
            &&& after.provided_slabs() == before.provided_slabs().update(
                class,
                after.provided_slabs()[class],
            )
        } else {
            &&& after.provided_slabs() == before.provided_slabs()
            &&& after.fixed_slabs() == before.fixed_slabs().update(
                class,
                after.fixed_slabs()[class],
            )
        }
    }

    /// Whether the class that `at` lies in hands out the same slots as before.
    pub open spec fn stock_kept(before: &Self, after: &Self, at: Handle) -> bool {
        let class = (at.bid >> 24) as int;
        if at.provided {
            after.provided_slabs()[class].same_stock(&before.provided_slabs()[class])
        } else {
            after.fixed_slabs()[class].same_stock(&before.fixed_slabs()[class])
        }
    }

    /// Whether the slot that `at` names was put back into its class.
    pub open spec fn slot_returned(before: &Self, after: &Self, at: Handle) -> bool {
        let class = (at.bid >> 24) as int;
        let local = at.bid & 0x00FF_FFFF;
        if at.provided {
            after.provided_slabs()[class].put_back(&before.provided_slabs()[class], local)
        } else {
            after.fixed_slabs()[class].put_back(&before.fixed_slabs()[class], local)
        }
    }

    /// The slot that `at` names is held with `count` now, and no slot went back.
    pub open spec fn viewed(before: &Self, after: &Self, at: Handle, count: int) -> bool {
        Buffers::recounted(before, after, at, count) && Buffers::stock_kept(before, after, at)
    }

    /// A view of the slot that `at` names went and `count` is left. The slot
    /// goes back with its last view.
    pub open spec fn dropped(before: &Self, after: &Self, at: Handle, count: int) -> bool {
        &&& Buffers::recounted(before, after, at, count)
        &&& if count == 0 {
            Buffers::slot_returned(before, after, at)
        } else {
            Buffers::stock_kept(before, after, at)
        }
    }

    /// Fresh buffers of the given classes: every slot is free, and is handed
    /// out in order.
    pub open spec fn built(
        &self,
        provided: Seq<SizeClass>,
        fixed: Seq<SizeClass>,
        generation: u32,
    ) -> bool {
        let p = classes::layout_of(classes::sorted(provided));
        let f = classes::layout_of(classes::sorted(fixed));
        let start = fixed_start_of(provided, fixed);
        &&& self.generation_view() == generation
        &&& self.provided_classes() == classes::sorted(provided)
        &&& self.fixed_classes() == classes::sorted(fixed)
        &&& self.memory_view().len() == slab_size(provided, fixed)
        &&& forall|i: int|
            0 <= i < self.provided_slabs().len() ==> {
                let s = #[trigger] self.provided_slabs()[i];
                &&& s.shape() == (Shape {
                    base: p[i].base_offset as usize,
                    size: p[i].size,
                    class: i as u8,
                })
                &&& s.counts().len() == p[i].count
                &&& forall|k: int| 0 <= k < s.counts().len() ==> #[trigger] s.counts()[k] == 0
                &&& s.tail_view() == p[i].count
                &&& s.ring_view().len() == p[i].count
                &&& forall|k: int|
                    0 <= k < p[i].count ==> #[trigger] s.ring_view()[k] == s.descriptor(k as u16)
            }
        &&& forall|i: int|
            0 <= i < self.fixed_slabs().len() ==> {
                let s = #[trigger] self.fixed_slabs()[i];
                &&& s.shape() == (Shape {
                    base: (start + f[i].base_offset) as usize,
                    size: f[i].size,
                    class: i as u8,
                })
                &&& s.counts().len() == f[i].count
                &&& forall|k: int| 0 <= k < s.counts().len() ==> #[trigger] s.counts()[k] == 0
                &&& s.free_stack() == fixed::countdown(f[i].count as nat)
            }
    }

    /// Builds both pools over one slab.
    pub fn build_pools(
        provided_spec: &[SizeClass],
        fixed_spec: &[SizeClass],
        generation: u32,
    ) -> (b: Self)
        requires
            pools_ok(provided_spec@, fixed_spec@),
        ensures
            b.wf(),
            b.built(provided_spec@, fixed_spec@, generation),
    {
        let p: Vec<SizeClassLayout> = classes::layout_classes(provided_spec, true);
        let f: Vec<SizeClassLayout> = classes::layout_classes(fixed_spec, false);
        let align: u32 = align_of_all(provided_spec, fixed_spec);
        let ghost ps = classes::sorted(provided_spec@);
        let ghost fs = classes::sorted(fixed_spec@);
        proof {
            lemma_last_total(provided_spec@, true);
            lemma_last_total(fixed_spec@, false);
            lemma_max_align(provided_spec@ + fixed_spec@);
            classes::lemma_align_up(p@.last().total as int, align as int);
        }
        let a: u64 = align as u64;
        let start: u64 = (p[p.len() - 1].total + a - 1) / a * a;
        let total: u64 = start + f[f.len() - 1].total;
        let memory: Vec<u8> = vec![0u8; total as usize];

        let mut provided_classes: Vec<SizeClass> = Vec::with_capacity(p.len());
        let mut provided_pools: Vec<ProvidedBufferPool> = Vec::with_capacity(p.len());
        let mut i: usize = 0;
        while i < p.len()
            invariant
                i <= p@.len() == ps.len(),
                p@.len() <= 128,
                p@ == classes::layout_of(ps),
                classes::total_of(ps) <= start <= total == memory@.len() <= u32::MAX,
                forall|k: int|
                    0 <= k < p@.len() ==> classes::class_ok(#[trigger] ps[k], true),
                forall|k: int|
                    0 <= k < p@.len() ==> (#[trigger] classes::layout_of(ps)[k]).base_offset
                        + ps[k].count * ps[k].size <= classes::total_of(ps),
                provided_classes@.len() == i,
                forall|k: int| 0 <= k < i ==> #[trigger] provided_classes@[k] == ps[k],
                provided_pools@.len() == i,
                forall|k: int|
                    0 <= k < i ==> {
                        let s = #[trigger] provided_pools@[k];
                        &&& s.wf()
                        &&& s.shape() == (Shape {
                            base: p@[k].base_offset as usize,
                            size: p@[k].size,
                            class: k as u8,
                        })
                        &&& s.counts().len() == p@[k].count
                        &&& forall|m: int| 0 <= m < s.counts().len() ==> #[trigger] s.counts()[m] == 0
                        &&& s.tail_view() == p@[k].count
                        &&& s.ring_view().len() == p@[k].count
                        &&& forall|m: int|
                            0 <= m < p@[k].count ==> #[trigger] s.ring_view()[m] == s.descriptor(
                                m as u16,
                            )
                        &&& s.shape().slot_start(s.counts().len() as int) <= memory@.len()
                    },
            decreases p@.len() - i,
        {
            let l: SizeClassLayout = p[i];
            let count: u32 = l.count;
            assert(l == classes::layout_of(ps)[i as int]);
            assert(classes::class_ok(ps[i as int], true));
            assert((count as u16) & (((count as u16) - 1) as u16) == 0 && count as u16 == count)
                by (bit_vector)
                requires
                    0 < count <= 32768,
                    count & ((count - 1) as u32) == 0,
            ;
            provided_classes.push(SizeClass { size: l.size, count: l.count });
            let pool: ProvidedBufferPool = ProvidedBufferPool::new(
                l.base_offset as usize,
                l.count as u16,
                l.size,
                i as u8,
            );
            provided_pools.push(pool);
            i = i + 1;
        }
        assert(provided_classes@ =~= ps);

        let mut fixed_classes: Vec<SizeClass> = Vec::with_capacity(f.len());
        let mut fixed_pools: Vec<FixedSlab> = Vec::with_capacity(f.len());
        let mut j: usize = 0;
        while j < f.len()
            invariant
                j <= f@.len() == fs.len(),
                f@.len() <= 256,
                f@ == classes::layout_of(fs),
                start + classes::total_of(fs) == total == memory@.len() <= u32::MAX,
                forall|k: int|
                    0 <= k < f@.len() ==> classes::class_ok(#[trigger] fs[k], false),
                forall|k: int|
                    0 <= k < f@.len() ==> (#[trigger] classes::layout_of(fs)[k]).base_offset
                        + fs[k].count * fs[k].size <= classes::total_of(fs),
                fixed_classes@.len() == j,
                forall|k: int| 0 <= k < j ==> #[trigger] fixed_classes@[k] == fs[k],
                fixed_pools@.len() == j,
                forall|k: int|
                    0 <= k < j ==> {
                        let s = #[trigger] fixed_pools@[k];
                        &&& s.wf()
                        &&& s.shape() == (Shape {
                            base: (start + f@[k].base_offset) as usize,
                            size: f@[k].size,
                            class: k as u8,
                        })
                        &&& s.counts().len() == f@[k].count
                        &&& forall|m: int| 0 <= m < s.counts().len() ==> #[trigger] s.counts()[m] == 0
                        &&& s.free_stack() == fixed::countdown(f@[k].count as nat)
                        &&& s.shape().slot_start(s.counts().len() as int) <= memory@.len()
                    },
            decreases f@.len() - j,
        {
            let l: SizeClassLayout = f[j];
            assert(l == classes::layout_of(fs)[j as int]);
            assert(classes::class_ok(fs[j as int], false));
            fixed_classes.push(SizeClass { size: l.size, count: l.count });
            let slab: FixedSlab = FixedSlab::new(
                start as usize + l.base_offset as usize,
                l.size,
                l.count,
                j as u8,
            );
            fixed_pools.push(slab);
            j = j + 1;
        }
        assert(fixed_classes@ =~= fs);

        proof {
            assert forall|x: int, y: int| 0 <= x < y < provided_pools@.len() implies slab_end(
                #[trigger] provided_pools@[x],
            ) <= (#[trigger] provided_pools@[y]).shape().base by {
                assert forall|k: int| 0 <= k < ps.len() implies (#[trigger] ps[k]).size > 0 by {
                    assert(classes::class_ok(ps[k], true));
                }
                classes::classes_do_not_overlap(ps, x, y);
                assert(ps[x].size * ps[x].count == ps[x].count * ps[x].size) by (nonlinear_arith);
            }
            assert forall|x: int, y: int| 0 <= x < y < fixed_pools@.len() implies slab_end(
                #[trigger] fixed_pools@[x],
            ) <= (#[trigger] fixed_pools@[y]).shape().base by {
                assert forall|k: int| 0 <= k < fs.len() implies (#[trigger] fs[k]).size > 0 by {
                    assert(classes::class_ok(fs[k], false));
                }
                classes::classes_do_not_overlap(fs, x, y);
                assert(fs[x].size * fs[x].count == fs[x].count * fs[x].size) by (nonlinear_arith);
            }
            assert forall|x: int, y: int|
                0 <= x < provided_pools@.len() && 0 <= y < fixed_pools@.len() implies slab_end(
                #[trigger] provided_pools@[x],
            ) <= (#[trigger] fixed_pools@[y]).shape().base by {
                assert(classes::layout_of(ps)[x].base_offset + ps[x].count * ps[x].size
                    <= classes::total_of(ps));
            }
        }
        Buffers {
            generation,
            memory,
            provided: Pool::new(provided_classes, provided_pools),
            fixed: Pool::new(fixed_classes, fixed_pools),
        }
    }

    /// Whether `at` belongs to this run.
    pub fn is_live(&self, at: Handle) -> (live: bool)
        ensures
            live == self.live(at),
    {
        at.generation == self.generation
    }

    /// The pool whose slots the kernel picks.
    pub fn provided_pool(&self) -> (pool: &Pool<ProvidedBufferPool>)
        ensures
            pool.slab_seq() == self.provided_slabs(),
            pool.class_table() == self.provided_classes(),
    {
        &self.provided
    }

    /// The pool whose slots are asked for.
    pub fn fixed_pool(&self) -> (pool: &Pool<FixedSlab>)
        ensures
            pool.slab_seq() == self.fixed_slabs(),
            pool.class_table() == self.fixed_classes(),
    {
        &self.fixed
    }

    /// The slab's memory.
    pub fn memory(&self) -> (memory: &Vec<u8>)
        ensures
            memory@ == self.memory_view(),
    {
        &self.memory
    }

    /// Overwrites the memory from `start` on with `data`.
    pub(crate) fn write_at(&mut self, start: usize, data: &[u8])
        requires
            old(self).wf(),
            start + data@.len() <= old(self).memory_view().len(),
        ensures
            final(self).wf(),
            final(self).same_layout(&*old(self)),
            final(self).provided_slabs() == old(self).provided_slabs(),
            final(self).fixed_slabs() == old(self).fixed_slabs(),
            final(self).memory_view() == old(self).memory_view().take(start as int) + data@ + old(
                self,
            ).memory_view().skip(start + data@.len()),
    {
        let ghost before = self.memory@;
        let total: usize = self.memory.len();
        let mut i: usize = 0;
        while i < data.len()
            invariant
                i <= data@.len(),
                total == before.len(),
                start + data@.len() <= total,
                self.memory@.len() == before.len(),
                self.provided == old(self).provided,
                self.fixed == old(self).fixed,
                self.generation == old(self).generation,
                forall|k: int| 0 <= k < i ==> self.memory@[start + k] == data@[k],
                forall|k: int| 0 <= k < start ==> self.memory@[k] == before[k],
                forall|k: int| start + i <= k < before.len() ==> self.memory@[k] == before[k],
            decreases data@.len() - i,
        {
            self.memory.set(start + i, data[i]);
            i = i + 1;
        }
        assert(self.memory@ =~= before.take(start as int) + data@ + before.skip(
            start + data@.len(),
        )) by {
            assert forall|k: int| start <= k < start + data@.len() implies self.memory@[k]
                == data@[k - start] by {
                assert(self.memory@[start + (k - start)] == data@[k - start]);
            }
        }
        assert(self.ordered());
    }

    /// The `len` bytes of memory from `start` on.
    pub(crate) fn slice_mut(&mut self, start: usize, len: usize) -> (bytes: &mut [u8])
        requires
            old(self).wf(),
            start + len <= old(self).memory_view().len(),
        ensures
            bytes@ == old(self).memory_view().subrange(start as int, start + len),
            final(bytes)@.len() == len ==> final(self).wf(),
            final(self).same_layout(&*old(self)),
            final(self).provided_slabs() == old(self).provided_slabs(),
            final(self).fixed_slabs() == old(self).fixed_slabs(),
            final(self).memory_view() == old(self).memory_view().take(start as int)
                + final(bytes)@ + old(self).memory_view().skip(start + len),
    {
        let all: &mut [u8] = self.memory.as_mut_slice();
        let (_before, rest) = all.split_at_mut(start);
        let (bytes, _after) = rest.split_at_mut(len);
        bytes
    }

    /// The provided class whose slots are the smallest that hold `size` bytes.
    pub fn provided_class_for(&self, size: usize) -> (class: Option<usize>)
        ensures
            class == if classes::first_fit(self.provided_classes(), size as int)
                < self.provided_classes().len() {
                Some(classes::first_fit(self.provided_classes(), size as int) as usize)
            } else {
                None
            },
    {
        self.provided.class_for(size)
    }

    /// What every allocation does: the smallest fixed class that holds `size`
    /// bytes gives its next free slot, which `at` names and which is now held
    /// with `count`.
    pub open spec fn allocated(before: &Self, after: &Self, size: int, at: Handle, count: int) -> bool {
        let class = classes::first_fit(before.fixed_classes(), size);
        let free = before.fixed_slabs()[class].free_stack();
        &&& 0 <= class < before.fixed_slabs().len()
        &&& free.len() > 0
        &&& (at.bid >> 24) as int == class
        &&& at == (Handle {
            provided: false,
            bid: classes::packed(class as u32, free.last()),
            generation: before.generation_view(),
            offset: 0,
        })
        &&& before.knows(at)
        &&& before.count_at(at) == 0
        &&& Buffers::recounted(before, after, at, count)
        &&& after.fixed_slabs()[class].free_stack() == free.drop_last()
    }

    /// Whether no fixed slot for `size` bytes is to be had.
    pub open spec fn exhausted(&self, size: int) -> bool {
        let class = classes::first_fit(self.fixed_classes(), size);
        class >= self.fixed_slabs().len() || self.fixed_slabs()[class].free_stack().len() == 0
    }

    /// Whether no fixed class has slots of `size` bytes.
    pub(crate) fn fits_no_class(&self, size: usize) -> (none: bool)
        requires
            self.wf(),
        ensures
            none == (classes::first_fit(self.fixed_classes(), size as int)
                >= self.fixed_slabs().len()),
    {
        proof {
            classes::lemma_first_fit(self.fixed_classes(), size as int);
        }
        self.fixed.class_for(size).is_none()
    }

    /// Takes a slot for `size` bytes.
    pub(crate) fn take_fixed(&mut self, size: usize, exclusive: bool) -> (at: Option<Handle>)
        requires
            old(self).wf(),
        ensures
            final(self).wf(),
            match at {
                Some(at) => Buffers::allocated(
                    &*old(self),
                    &*final(self),
                    size as int,
                    at,
                    if exclusive {
                        -1
                    } else {
                        1
                    },
                ),
                None => old(self).exhausted(size as int) && *final(self) == *old(self),
            },
    {
        proof {
            classes::lemma_first_fit(self.fixed_classes(), size as int);
        }
        let class: usize = match self.fixed.class_for(size) {
            Some(class) => class,
            None => return None,
        };
        if self.fixed.slab(class).free_count() == 0 {
            return None;
        }
        let generation: u32 = self.generation;
        let ghost before = self.fixed_slabs()[class as int];
        let slab: &mut FixedSlab = self.fixed.slab_mut(class);
        let local: Option<u32> = if exclusive {
            slab.acquire_slot()
        } else {
            slab.acquire_slot_shared()
        };
        let local: u32 = local.unwrap();
        proof {
            before.slots_fit();
            before.free_slots_exist();
            classes::packed_bid_unpacks(class as u32, local);
        }
        let at = Handle {
            provided: false,
            bid: classes::pack_bid(class as u32, local),
            generation,
            offset: 0,
        };
        proof {
            let count: int = if exclusive {
                -1
            } else {
                1
            };
            assert(self.counts(false)[class as int] == self.fixed_slabs()[class as int].counts());
            assert(old(self).counts(false)[class as int] == before.counts());
            Buffers::lemma_recounted(&*old(self), &*self, at, count);
        }
        Some(at)
    }

    /// A shared view of slot `local` of provided class `class`, which the
    /// kernel picked and filled with `len` bytes.
    pub fn provided_bytes(&mut self, class: u8, local: u16, len: u32) -> (view: Bytes)
        requires
            old(self).wf(),
            class < old(self).provided_slabs().len(),
            local < old(self).provided_slabs()[class as int].counts().len(),
            old(self).provided_slabs()[class as int].counts()[local as int] == 0,
            len <= old(self).provided_slabs()[class as int].shape().size,
        ensures
            final(self).wf(),
            view@ == (Span {
                at: Handle {
                    provided: true,
                    bid: classes::packed(class as u32, local as u32),
                    generation: old(self).generation_view(),
                    offset: 0,
                },
                len,
            }),
            final(self).covers(view@),
            Buffers::viewed(&*old(self), &*final(self), view@.at, 1),
    {
        let generation: u32 = self.generation;
        let ghost before = self.provided_slabs()[class as int];
        let slab: &mut ProvidedBufferPool = self.provided.slab_mut(class as usize);
        let view: Bytes = slab.select(local, len, generation);
        proof {
            before.slots_fit();
            classes::packed_bid_unpacks(class as u32, local as u32);
            assert(self.counts(true)[class as int] == self.provided_slabs()[class as int].counts());
            assert(old(self).counts(true)[class as int] == before.counts());
            Buffers::lemma_recounted(&*old(self), &*self, view@.at, 1);
        }
        view
    }

    /// Where in memory `at` is.
    pub fn resolve(&self, at: Handle) -> (place: usize)
        requires
            self.wf(),
            self.live(at),
            self.knows(at),
        ensures
            place == self.place_of(at),
            place <= self.memory_view().len(),
    {
        let class: usize = classes::bid_class(at.bid) as usize;
        let local: u32 = classes::bid_local(at.bid);
        if at.provided {
            proof {
                assert(self.counts(true)[class as int] == self.provided_slabs()[class as int].counts());
                self.provided_slabs()[class as int].slots_fit();
            }
            pool::slot_offset(self.provided.slab(class), local) + at.offset as usize
        } else {
            proof {
                assert(self.counts(false)[class as int] == self.fixed_slabs()[class as int].counts());
                self.fixed_slabs()[class as int].slots_fit();
            }
            pool::slot_offset(self.fixed.slab(class), local) + at.offset as usize
        }
    }

    /// The size of the slot that `at` names.
    pub fn slot_size(&self, at: Handle) -> (n: u32)
        requires
            self.wf(),
            self.live(at),
            self.knows(at),
        ensures
            n == self.shape_of(at.provided, (at.bid >> 24) as int).size,
    {
        let class: usize = classes::bid_class(at.bid) as usize;
        if at.provided {
            self.provided.slot_size(class)
        } else {
            self.fixed.slot_size(class)
        }
    }

    proof fn lemma_recounted(
        before: &Self,
        after: &Self,
        at: Handle,
        count: int,
    )
        requires
            before.wf(),
            before.knows(at),
            after.generation_view() == before.generation_view(),
            after.memory_view() == before.memory_view(),
            after.provided_classes() == before.provided_classes(),
            after.fixed_classes() == before.fixed_classes(),
            ({
                let class = (at.bid >> 24) as int;
                let local = (at.bid & 0x00FF_FFFF) as int;
                if at.provided {
                    &&& after.fixed_slabs() == before.fixed_slabs()
                    &&& after.provided_slabs() == before.provided_slabs().update(
                        class,
                        after.provided_slabs()[class],
                    )
                    &&& after.provided_slabs()[class].wf()
                    &&& after.provided_slabs()[class].shape() == before.provided_slabs()[class].shape()
                    &&& after.provided_slabs()[class].counts() == before.provided_slabs()[class].counts().update(
                    local, count as i32)
                } else {
                    &&& after.provided_slabs() == before.provided_slabs()
                    &&& after.fixed_slabs() == before.fixed_slabs().update(
                        class,
                        after.fixed_slabs()[class],
                    )
                    &&& after.fixed_slabs()[class].wf()
                    &&& after.fixed_slabs()[class].shape() == before.fixed_slabs()[class].shape()
                    &&& after.fixed_slabs()[class].counts() == before.fixed_slabs()[class].counts().update(
                    local, count as i32)
                }
            }),
        ensures
            after.wf(),
            Buffers::recounted(before, after, at, count),
    {
        let class = (at.bid >> 24) as int;
        let local = (at.bid & 0x00FF_FFFF) as int;
        assert(after.counts(at.provided) =~= before.counts(at.provided).update(
            class,
            before.counts(at.provided)[class].update(local, count as i32),
        ));
        assert(after.counts(!at.provided) =~= before.counts(!at.provided));
        assert(after.ordered()) by {
            assert forall|i: int, j: int| 0 <= i < j < after.provided_slabs().len() implies slab_end(
                #[trigger] after.provided_slabs()[i],
            ) <= (#[trigger] after.provided_slabs()[j]).shape().base by {
                assert(slab_end(before.provided_slabs()[i])
                    <= before.provided_slabs()[j].shape().base);
            }
            assert forall|i: int, j: int| 0 <= i < j < after.fixed_slabs().len() implies slab_end(
                #[trigger] after.fixed_slabs()[i],
            ) <= (#[trigger] after.fixed_slabs()[j]).shape().base by {
                assert(slab_end(before.fixed_slabs()[i]) <= before.fixed_slabs()[j].shape().base);
            }
            assert forall|i: int, j: int|
                0 <= i < after.provided_slabs().len() && 0 <= j
                    < after.fixed_slabs().len() implies slab_end(
                #[trigger] after.provided_slabs()[i],
            ) <= (#[trigger] after.fixed_slabs()[j]).shape().base by {
                assert(slab_end(before.provided_slabs()[i])
                    <= before.fixed_slabs()[j].shape().base);
            }
        }
    }

    /// Counts one more shared view of the slot that `at` names. A place of an
    /// earlier run is left alone.
    pub fn clone_view(&mut self, at: Handle)
        requires
            old(self).wf(),
            old(self).live(at) ==> old(self).knows(at) && 0 < old(self).count_at(at) < i32::MAX,
        ensures
            final(self).wf(),
            old(self).live(at) ==> Buffers::viewed(
                &*old(self),
                &*final(self),
                at,
                old(self).count_at(at) + 1,
            ),
            !old(self).live(at) ==> *final(self) == *old(self),
    {
        if at.generation != self.generation {
            return;
        }
        let class: usize = classes::bid_class(at.bid) as usize;
        let local: u32 = classes::bid_local(at.bid);
        if at.provided {
            let slab: &mut ProvidedBufferPool = self.provided.slab_mut(class);
            slab.clone_shared(local);
        } else {
            let slab: &mut FixedSlab = self.fixed.slab_mut(class);
            slab.clone_shared(local);
        }
        proof {
            Buffers::lemma_recounted(&*old(self), &*self, at, old(self).count_at(at) + 1);
        }
    }

    /// Counts one more exclusive view of the slot that `at` names. A place of
    /// an earlier run is left alone.
    pub fn split_exclusive(&mut self, at: Handle)
        requires
            old(self).wf(),
            old(self).live(at) ==> old(self).knows(at) && i32::MIN < old(self).count_at(at) < 0,
        ensures
            final(self).wf(),
            old(self).live(at) ==> Buffers::viewed(
                &*old(self),
                &*final(self),
                at,
                old(self).count_at(at) - 1,
            ),
            !old(self).live(at) ==> *final(self) == *old(self),
    {
        if at.generation != self.generation {
            return;
        }
        let class: usize = classes::bid_class(at.bid) as usize;
        let local: u32 = classes::bid_local(at.bid);
        if at.provided {
            let slab: &mut ProvidedBufferPool = self.provided.slab_mut(class);
            slab.split_exclusive(local);
        } else {
            let slab: &mut FixedSlab = self.fixed.slab_mut(class);
            slab.split_exclusive(local);
        }
        proof {
            Buffers::lemma_recounted(&*old(self), &*self, at, old(self).count_at(at) - 1);
        }
    }

    /// Lets one view of the slot that `at` names go; the slot is recycled with
    /// its last view. A place of an earlier run is left alone.
    pub fn drop_view(&mut self, at: Handle, exclusive: bool)
        requires
            old(self).wf(),
            old(self).live(at) ==> old(self).knows(at) && tracker::held(
                old(self).count_at(at),
                exclusive,
            ),
        ensures
            final(self).wf(),
            old(self).live(at) ==> Buffers::dropped(
                &*old(self),
                &*final(self),
                at,
                tracker::released(old(self).count_at(at), exclusive),
            ),
            !old(self).live(at) ==> *final(self) == *old(self),
    {
        if at.generation != self.generation {
            return;
        }
        let class: usize = classes::bid_class(at.bid) as usize;
        let local: u32 = classes::bid_local(at.bid);
        if at.provided {
            let slab: &mut ProvidedBufferPool = self.provided.slab_mut(class);
            slab.drop_view(exclusive, local);
        } else {
            let slab: &mut FixedSlab = self.fixed.slab_mut(class);
            slab.drop_view(exclusive, local);
        }
        proof {
            Buffers::lemma_recounted(
                &*old(self),
                &*self,
                at,
                tracker::released(old(self).count_at(at), exclusive),
            );
        }
    }

    /// Turns the sole shared view of the slot that `at` names into an
    /// exclusive one.
    pub fn upgrade_view(&mut self, at: Handle)
        requires
            old(self).wf(),
            old(self).live(at),
            old(self).knows(at),
            old(self).count_at(at) == 1,
        ensures
            final(self).wf(),
            Buffers::viewed(&*old(self), &*final(self), at, -1),
    {
        let class: usize = classes::bid_class(at.bid) as usize;
        let local: u32 = classes::bid_local(at.bid);
        if at.provided {
            let slab: &mut ProvidedBufferPool = self.provided.slab_mut(class);
            slab.upgrade(local);
        } else {
            let slab: &mut FixedSlab = self.fixed.slab_mut(class);
            slab.upgrade(local);
        }
        proof {
            Buffers::lemma_recounted(&*old(self), &*self, at, -1);
        }
    }

    /// Turns the sole exclusive view of the slot that `at` names into a shared
    /// one.
    pub fn downgrade_view(&mut self, at: Handle)
        requires
            old(self).wf(),
            old(self).live(at),
            old(self).knows(at),
            old(self).count_at(at) == -1,
        ensures
            final(self).wf(),
            Buffers::viewed(&*old(self), &*final(self), at, 1),
    {
        let class: usize = classes::bid_class(at.bid) as usize;
        let local: u32 = classes::bid_local(at.bid);
        if at.provided {
            let slab: &mut ProvidedBufferPool = self.provided.slab_mut(class);
            slab.downgrade(local);
        } else {
            let slab: &mut FixedSlab = self.fixed.slab_mut(class);
            slab.downgrade(local);
        }
        proof {
            Buffers::lemma_recounted(&*old(self), &*self, at, 1);
        }
    }
}

/// The bytes of two different slots never overlap.
pub proof fn slots_never_overlap(b: &Buffers, x: Handle, y: Handle)
    requires
        b.wf(),
        b.knows(x),
        b.knows(y),
        (x.provided, x.bid) != (y.provided, y.bid),
    ensures
        ({
            let sx = b.shape_of(x.provided, (x.bid >> 24) as int);
            let sy = b.shape_of(y.provided, (y.bid >> 24) as int);
            let ax = b.place_of(x) - x.offset;
            let ay = b.place_of(y) - y.offset;
            ax + sx.size <= ay || ay + sy.size <= ax
        }),
{
    let cx = (x.bid >> 24) as int;
    let cy = (y.bid >> 24) as int;
    let lx = (x.bid & 0x00FF_FFFF) as int;
    let ly = (y.bid & 0x00FF_FFFF) as int;
    let sx = b.shape_of(x.provided, cx);
    let sy = b.shape_of(y.provided, cy);
    let nx = b.counts(x.provided)[cx].len() as int;
    let ny = b.counts(y.provided)[cy].len() as int;
    lemma_slot_in_slab(sx, lx, nx);
    lemma_slot_in_slab(sy, ly, ny);
    if x.provided == y.provided && cx == cy {
        classes::unpacked_bid_packs(x.bid);
        classes::unpacked_bid_packs(y.bid);
        assert(lx != ly);
        if lx < ly {
            pool::slots_are_disjoint(sx, lx, ly);
        } else {
            pool::slots_are_disjoint(sx, ly, lx);
        }
    } else if x.provided && y.provided {
        let p = b.provided_slabs();
        if cx < cy {
            assert(slab_end(p[cx]) <= p[cy].shape().base);
        } else {
            assert(slab_end(p[cy]) <= p[cx].shape().base);
        }
    } else if !x.provided && !y.provided {
        let f = b.fixed_slabs();
        if cx < cy {
            assert(slab_end(f[cx]) <= f[cy].shape().base);
        } else {
            assert(slab_end(f[cy]) <= f[cx].shape().base);
        }
    } else if x.provided {
        assert(slab_end(b.provided_slabs()[cx]) <= b.fixed_slabs()[cy].shape().base);
    } else {
        assert(slab_end(b.provided_slabs()[cy]) <= b.fixed_slabs()[cx].shape().base);
    }
}

/// With slot sizes that are powers of two, every slot of both pools starts at
/// a multiple of its size, or of a page where it is larger than one.
pub proof fn built_slots_are_aligned(
    provided: Seq<SizeClass>,
    fixed: Seq<SizeClass>,
    in_provided: bool,
    i: int,
    slot: int,
)
    requires
        pools_ok(provided, fixed),
        ({
            let s = classes::sorted(
                if in_provided {
                    provided
                } else {
                    fixed
                },
            );
            0 <= i < s.len() && classes::power_of_two(s[i].size) && 0 <= slot < s[i].count
        }),
    ensures
        ({
            let s = classes::sorted(
                if in_provided {
                    provided
                } else {
                    fixed
                },
            );
            let start = if in_provided {
                0
            } else {
                fixed_start_of(provided, fixed)
            };
            (start + classes::layout_of(s)[i].base_offset + slot * s[i].size)
                % classes::slot_align(s[i].size) == 0
        }),
{
    let own = if in_provided {
        provided
    } else {
        fixed
    };
    let s = classes::sorted(own);
    let z = s[i].size;
    let a = classes::slot_align(z);
    let align = slab_align(provided, fixed);
    lemma_last_total(provided, true);
    lemma_last_total(fixed, false);
    lemma_max_align(provided + fixed);
    classes::sorting_orders_the_same_classes(own);
    assert(classes::class_ok(s[i], in_provided));
    assert(s.contains(s[i]));
    let m = choose|m: int| 0 <= m < own.len() && own[m] == s[i];
    assert((provided + fixed)[if in_provided {
        m
    } else {
        provided.len() + m
    }] == s[i]);
    assert(a <= align);
    let big: u32 = align as u32;
    let small: u32 = a as u32;
    assert(classes::power_of_two(small)) by {
        assert(4096u32 & (4096u32 - 1) as u32 == 0) by (bit_vector);
    }
    assert(big % small == 0) by (bit_vector)
        requires
            0 < small <= big <= 4096,
            small & ((small - 1) as u32) == 0,
            big & ((big - 1) as u32) == 0,
    ;
    if z >= 4096 {
        assert(z % 4096 == 0) by (bit_vector)
            requires
                z >= 4096,
                z & ((z - 1) as u32) == 0,
        ;
    } else {
        lemma_mod_self_0(z as int);
    }
    assert forall|k: int| 0 <= k < s.len() implies (#[trigger] s[k]).size > 0 by {
        assert(classes::class_ok(s[k], in_provided));
    }
    classes::slots_are_aligned(s, i, slot);
    let end = classes::total_of(classes::sorted(provided));
    classes::lemma_align_up(end, align);
    let start = fixed_start_of(provided, fixed);
    let q = start / align;
    let r = align / a;
    lemma_fundamental_div_mod(start, align);
    lemma_fundamental_div_mod(align, a);
    assert(start == a * (r * q)) by (nonlinear_arith)
        requires
            start == align * q,
            align == a * r,
    ;
    lemma_mod_multiples_vanish(r * q, classes::layout_of(s)[i].base_offset + slot * z, a);
}

proof fn lemma_slot_in_slab(s: Shape, local: int, count: int)
    requires
        0 <= local < count,
    ensures
        s.base <= s.slot_start(local),
        s.slot_start(local) + s.size <= s.slot_start(count),
{
    assert(0 <= local * s.size && local * s.size + s.size <= count * s.size) by (nonlinear_arith)
        requires
            0 <= local,
            local + 1 <= count,
            s.size >= 0,
    ;
}

/// A place lies in its slot: at the slot's start, which is as many slot sizes
/// behind the class's base as its number says, plus the offset. The class is
/// the top byte of the buffer id, the slot's number the rest.
pub proof fn place_is_in_its_slot(b: &Buffers, at: Handle)
    requires
        b.wf(),
        b.knows(at),
    ensures
        ({
            let class = at.bid as int / 16777216;
            let local = at.bid as int % 16777216;
            let shape = b.shape_of(at.provided, class);
            &&& b.place_of(at) == shape.base + local * shape.size + at.offset
            &&& b.count_at(at) == b.counts(at.provided)[class][local]
            &&& at.offset <= shape.size
            &&& class < b.counts(at.provided).len()
            &&& local < b.counts(at.provided)[class].len()
        }),
{
    let bid = at.bid;
    assert(bid >> 24 == bid / 16777216 && bid & 0x00FF_FFFF == bid % 16777216) by (bit_vector);
}

/// A view covers as many bytes as it is long, all of them in its slot.
pub proof fn view_covers_its_length(b: &Buffers, span: Span)
    requires
        b.wf(),
        b.covers(span),
        b.place_of(span.at) + span.len <= b.memory_view().len(),
        0 <= b.place_of(span.at),
    ensures
        b.bytes_of(span).len() == span.len,
        forall|i: int|
            0 <= i < span.len ==> #[trigger] b.bytes_of(span)[i] == b.memory_view()[b.place_of(
                span.at,
            ) + i],
        span.at.offset + span.len <= b.shape_of(span.at.provided, (span.at.bid >> 24) as int).size,
{
}

/// Counting views of one slot changes no other slot's count, in its own pool or
/// in the other, and no byte.
pub proof fn count_concerns_one_slot(
    before: &Buffers,
    after: &Buffers,
    at: Handle,
    count: i32,
    other: Handle,
)
    requires
        before.knows(at),
        before.knows(other),
        Buffers::recounted(before, after, at, count as int),
        (at.provided, at.bid) != (other.provided, other.bid),
    ensures
        after.count_at(at) == count,
        after.count_at(other) == before.count_at(other),
        after.memory_view() == before.memory_view(),
        after.generation_view() == before.generation_view(),
{
    classes::unpacked_bid_packs(at.bid);
    classes::unpacked_bid_packs(other.bid);
}

/// An allocation takes a free slot of the smallest class that is large enough,
/// and names it whole. Of that slot alone the count changes.
pub proof fn allocation_takes_the_smallest_fit(
    before: &Buffers,
    after: &Buffers,
    size: int,
    at: Handle,
    count: i32,
    other: int,
)
    requires
        before.wf(),
        Buffers::allocated(before, after, size, at, count as int),
        0 <= other < before.fixed_classes().len(),
    ensures
        ({
            let class = (at.bid >> 24) as int;
            &&& !at.provided && at.offset == 0 && at.generation == before.generation_view()
            &&& before.fixed_classes()[class].size >= size
            &&& other < class ==> before.fixed_classes()[other].size < size
            &&& before.fixed_slabs()[class].free_stack().last() == at.bid & 0x00FF_FFFF
            &&& before.count_at(at) == 0
            &&& after.count_at(at) == count
        }),
{
    classes::lemma_first_fit(before.fixed_classes(), size);
    let class = (at.bid >> 24) as int;
    let free = before.fixed_slabs()[class].free_stack();
    before.fixed_slabs()[class].free_slots_exist();
    assert(free[free.len() - 1] == free.last());
    classes::packed_bid_unpacks(class as u32, free.last());
}

/// There is no slot for some bytes exactly when every class is too small, or
/// the smallest that is large enough has none free.
pub proof fn exhausted_means_none_free(b: &Buffers, size: int, class: int)
    requires
        b.wf(),
        0 <= class < b.fixed_classes().len(),
        b.fixed_classes()[class].size >= size,
        forall|i: int| 0 <= i < class ==> (#[trigger] b.fixed_classes()[i]).size < size,
    ensures
        b.exhausted(size) <==> b.fixed_slabs()[class].free_stack().len() == 0,
{
    classes::lemma_first_fit(b.fixed_classes(), size);
}

/// No slot is large enough for more bytes than any class has.
pub proof fn oversize_is_exhausted(b: &Buffers, size: int)
    requires
        b.wf(),
        forall|i: int|
            0 <= i < b.fixed_classes().len() ==> (#[trigger] b.fixed_classes()[i]).size < size,
    ensures
        b.exhausted(size),
{
    classes::lemma_first_fit(b.fixed_classes(), size);
}

/// A slot whose last view went is the next one that its class hands out.
pub proof fn freed_slot_is_taken_again(
    b0: &Buffers,
    b1: &Buffers,
    b2: &Buffers,
    at: Handle,
    size: int,
    next: Handle,
    count: i32,
)
    requires
        b0.wf(),
        b1.wf(),
        b0.knows(at),
        !at.provided,
        Buffers::dropped(b0, b1, at, 0),
        Buffers::allocated(b1, b2, size, next, count as int),
        next.bid >> 24 == at.bid >> 24,
    ensures
        next.bid == at.bid,
{
    let class = (at.bid >> 24) as int;
    let free = b1.fixed_slabs()[class].free_stack();
    assert(free.last() == at.bid & 0x00FF_FFFF);
    classes::unpacked_bid_packs(at.bid);
}

/// The slab is laid out for the most demanding class: no class asks for more,
/// and one asks for as much. The fixed classes begin at the first such place
/// behind the provided ones, and the slab ends where they do.
pub proof fn slab_suits_every_class(provided: Seq<SizeClass>, fixed: Seq<SizeClass>, i: int)
    requires
        0 < provided.len() + fixed.len(),
        0 <= i < provided.len() + fixed.len(),
        forall|k: int| 0 <= k < provided.len() ==> (#[trigger] provided[k]).size > 0,
        forall|k: int| 0 <= k < fixed.len() ==> (#[trigger] fixed[k]).size > 0,
        classes::total_of(classes::sorted(provided)) >= 0,
    ensures
        ({
            let align = slab_align(provided, fixed);
            let start = fixed_start_of(provided, fixed);
            let end = classes::total_of(classes::sorted(provided));
            &&& classes::slot_align((provided + fixed)[i].size) <= align
            &&& exists|k: int|
                0 <= k < (provided + fixed).len() && classes::slot_align(
                    (#[trigger] (provided + fixed)[k]).size,
                ) == align
            &&& start % align == 0 && end <= start < end + align
            &&& slab_size(provided, fixed) == start + classes::total_of(classes::sorted(fixed))
        }),
{
    let all = provided + fixed;
    assert forall|k: int| 0 <= k < all.len() implies (#[trigger] all[k]).size > 0 by {
        if k < provided.len() {
            assert(all[k] == provided[k]);
        } else {
            assert(all[k] == fixed[k - provided.len()]);
        }
    }
    lemma_max_align(all);
    lemma_max_align_is_asked_for(all);
    classes::lemma_align_up(
        classes::total_of(classes::sorted(provided)),
        slab_align(provided, fixed),
    );
}

proof fn lemma_max_align_is_asked_for(s: Seq<SizeClass>)
    requires
        s.len() > 0,
        forall|k: int| 0 <= k < s.len() ==> (#[trigger] s[k]).size > 0,
    ensures
        exists|k: int| 0 <= k < s.len() && classes::slot_align((#[trigger] s[k]).size) == max_align(s),
        max_align(s) > 0,
    decreases s.len(),
{
    let last = s.len() - 1;
    if classes::slot_align(s[last].size) == max_align(s) {
    } else {
        let rest = s.drop_last();
        assert(rest.len() == 0 ==> max_align(rest) == 0);
        assert(rest.len() > 0);
        assert forall|k: int| 0 <= k < rest.len() implies (#[trigger] rest[k]).size > 0 by {
            assert(rest[k] == s[k]);
        }
        lemma_max_align_is_asked_for(rest);
        let k = choose|k: int|
            0 <= k < rest.len() && classes::slot_align((#[trigger] rest[k]).size) == max_align(
                rest,
            );
        assert(s[k] == rest[k]);
    }
}

/// Fresh buffers are all free, and belong to the run they were built for. The
/// classes are sorted, each has as many slots as were asked for, of its size,
/// and the first slot of each is handed out first.
pub proof fn fresh_buffers_are_free(
    b: &Buffers,
    provided: Seq<SizeClass>,
    fixed: Seq<SizeClass>,
    generation: u32,
    i: int,
    k: int,
)
    requires
        b.wf(),
        b.built(provided, fixed, generation),
    ensures
        b.generation_view() == generation,
        b.provided_classes() == classes::sorted(provided),
        b.fixed_classes() == classes::sorted(fixed),
        0 <= i < b.provided_slabs().len() ==> {
            let s = b.provided_slabs()[i];
            &&& s.shape().size == classes::sorted(provided)[i].size
            &&& s.counts().len() == classes::sorted(provided)[i].count
            &&& s.tail_view() == s.counts().len()
            &&& 0 <= k < s.counts().len() ==> s.counts()[k] == 0 && s.ring_view()[k]
                == s.descriptor(k as u16)
        },
        0 <= i < b.fixed_slabs().len() ==> {
            let s = b.fixed_slabs()[i];
            &&& s.shape().size == classes::sorted(fixed)[i].size
            &&& s.counts().len() == classes::sorted(fixed)[i].count
            &&& 0 <= k < s.counts().len() ==> s.counts()[k] == 0
            &&& s.free_stack().len() == s.counts().len()
            &&& s.counts().len() > 0 ==> s.free_stack().last() == 0
        },
{
    if 0 <= i < b.fixed_slabs().len() {
        let s = b.fixed_slabs()[i];
        s.free_slots_exist();
    }
}

/// Taking or counting a view puts no slot back: the classes hand out the same
/// slots as before.
pub proof fn viewed_slot_stays_out(
    before: &Buffers,
    after: &Buffers,
    at: Handle,
    count: int,
    class: int,
)
    requires
        before.knows(at),
        Buffers::viewed(before, after, at, count),
        before.fixed_slabs().len() == before.counts(false).len(),
        before.provided_slabs().len() == before.counts(true).len(),
    ensures
        0 <= class < before.fixed_slabs().len() ==> after.fixed_slabs()[class].free_stack()
            == before.fixed_slabs()[class].free_stack(),
        0 <= class < before.provided_slabs().len() ==> after.provided_slabs()[class].ring_view()
            == before.provided_slabs()[class].ring_view() && after.provided_slabs()[class].tail_view()
            == before.provided_slabs()[class].tail_view(),
        after.count_at(at) == count as i32,
{
}

/// A slot goes back with its last view and not before: the free slots of its
/// class grow by it when no view is left, and else stay.
pub proof fn slot_goes_back_with_its_last_view(
    before: &Buffers,
    after: &Buffers,
    at: Handle,
    count: int,
)
    requires
        before.knows(at),
        !at.provided,
        Buffers::dropped(before, after, at, count),
    ensures
        ({
            let class = (at.bid >> 24) as int;
            let was = before.fixed_slabs()[class].free_stack();
            let is = after.fixed_slabs()[class].free_stack();
            &&& count == 0 ==> is == was.push(at.bid & 0x00FF_FFFF)
            &&& count != 0 ==> is == was
            &&& after.count_at(at) == count as i32
            &&& after.memory_view() == before.memory_view()
        }),
{
}

/// Buffers of one layout have the same classes, with their slots in the same
/// places, and belong to the same run.
pub proof fn same_layout_means_same_places(a: &Buffers, b: &Buffers, provided: bool, class: int)
    requires
        a.same_layout(b),
        0 <= class < if provided {
            a.provided_slabs().len()
        } else {
            a.fixed_slabs().len()
        },
    ensures
        a.generation_view() == b.generation_view(),
        a.provided_classes() == b.provided_classes(),
        a.fixed_classes() == b.fixed_classes(),
        a.shape_of(provided, class) == b.shape_of(provided, class),
{
}

} // verus!
