//! Buffer size classes and the packed buffer ids shared by the pools.
//!
//! A pool's memory is split into size classes, each a run of equal slots. A
//! buffer id names a slot: its top byte is the class, its low 24 bits the slot
//! within the class.

use vstd::arithmetic::div_mod::*;
use vstd::arithmetic::mul::*;
use vstd::prelude::*;

verus! {

/// A run of equal-sized buffer slots.
#[derive(Debug, Clone, Copy, Eq, PartialEq, Structural)]
pub struct SizeClass {
    /// Slot size in bytes.
    pub size: u32,
    /// Number of slots in the class.
    pub count: u32,
}

/// The classes a runtime has unless told otherwise.
pub open spec fn default_classes() -> Seq<SizeClass> {
    seq![
        SizeClass { size: 64, count: 2048 },
        SizeClass { size: 256, count: 2048 },
        SizeClass { size: 1024, count: 512 },
        SizeClass { size: 4096, count: 128 },
        SizeClass { size: 16384, count: 16 },
        SizeClass { size: 65536, count: 2 },
    ]
}

/// The classes a runtime has unless told otherwise.
pub fn default_size_classes() -> (classes: Vec<SizeClass>)
    ensures
        classes@ == default_classes(),
{
    let mut classes: Vec<SizeClass> = Vec::new();
    classes.push(SizeClass { size: 64, count: 2048 });
    classes.push(SizeClass { size: 256, count: 2048 });
    classes.push(SizeClass { size: 1024, count: 512 });
    classes.push(SizeClass { size: 4096, count: 128 });
    classes.push(SizeClass { size: 16384, count: 16 });
    classes.push(SizeClass { size: 65536, count: 2 });
    classes
}

pub const BID_CLASS_SHIFT: u32 = 24;

pub const BID_LOCAL_MASK: u32 = 0x00FF_FFFF;

/// The largest alignment any buffer has: one page.
pub const BUFFER_MAX_ALIGN: u32 = 4096;

/// The largest count of a class that backs a kernel buffer ring.
pub const MAX_RING_COUNT: u32 = 32768;

/// The id of slot `local` of class `class`.
pub open spec fn packed(class: u32, local: u32) -> u32 {
    (class << 24) | local
}

/// Packs a class and a slot within it into a buffer id.
pub fn pack_bid(class: u32, local: u32) -> (bid: u32)
    requires
        class < 256,
        local <= BID_LOCAL_MASK,
    ensures
        bid == packed(class, local),
        bid == class * 0x100_0000 + local,
{
    assert((class << 24) | local == class * 0x100_0000 + local) by (bit_vector)
        requires
            class < 256,
            local <= 0x00FF_FFFF,
    ;
    (class << BID_CLASS_SHIFT) | local
}

/// The class that a buffer id names.
pub fn bid_class(bid: u32) -> (class: u32)
    ensures
        class == bid >> 24,
        class < 256,
{
    assert(bid >> 24 < 256) by (bit_vector);
    bid >> BID_CLASS_SHIFT
}

/// The slot within its class that a buffer id names.
pub fn bid_local(bid: u32) -> (local: u32)
    ensures
        local == bid & 0x00FF_FFFF,
        local <= BID_LOCAL_MASK,
{
    assert(bid & 0x00FF_FFFF <= 0x00FF_FFFF) by (bit_vector);
    bid & BID_LOCAL_MASK
}

/// Packing and unpacking are inverse to each other.
pub proof fn packed_bid_unpacks(class: u32, local: u32)
    requires
        class < 256,
        local <= BID_LOCAL_MASK,
    ensures
        packed(class, local) >> 24 == class,
        packed(class, local) & 0x00FF_FFFF == local,
{
    assert(((class << 24) | local) >> 24 == class && ((class << 24) | local) & 0x00FF_FFFF
        == local) by (bit_vector)
        requires
            class < 256,
            local <= 0x00FF_FFFF,
    ;
}

/// Every buffer id is the packing of the class and the slot it names, so no
/// two slots share an id.
pub proof fn unpacked_bid_packs(bid: u32)
    ensures
        packed(bid >> 24, bid & 0x00FF_FFFF) == bid,
{
    assert(((bid >> 24) << 24) | (bid & 0x00FF_FFFF) == bid) by (bit_vector);
}

/// The first class of `classes` that holds `size` bytes, or `classes.len()`.
pub open spec fn first_fit(classes: Seq<SizeClass>, size: int) -> int
    decreases classes.len(),
{
    if classes.len() == 0 || classes[0].size >= size {
        0
    } else {
        1 + first_fit(classes.skip(1), size)
    }
}

pub proof fn lemma_first_fit(classes: Seq<SizeClass>, size: int)
    ensures
        0 <= first_fit(classes, size) <= classes.len(),
        first_fit(classes, size) < classes.len() ==> classes[first_fit(classes, size)].size
            >= size,
        forall|i: int| 0 <= i < first_fit(classes, size) ==> classes[i].size < size,
    decreases classes.len(),
{
    if classes.len() == 0 || classes[0].size >= size {
    } else {
        let t = classes.skip(1);
        lemma_first_fit(t, size);
        assert forall|i: int| 0 <= i < first_fit(classes, size) implies classes[i].size < size by {
            if i > 0 {
                assert(classes[i] == t[i - 1]);
            }
        }
    }
}

/// The class whose slots are the smallest that hold `size` bytes. `classes` is
/// sorted by size.
pub fn class_for(classes: &[SizeClass], size: usize) -> (class: Option<usize>)
    ensures
        class == if first_fit(classes@, size as int) < classes@.len() {
            Some(first_fit(classes@, size as int) as usize)
        } else {
            None
        },
{
    proof {
        lemma_first_fit(classes@, size as int);
    }
    let mut i: usize = 0;
    while i < classes.len()
        invariant
            i <= classes@.len(),
            forall|k: int| 0 <= k < i ==> classes@[k].size < size,
            0 <= first_fit(classes@, size as int) <= classes@.len(),
            first_fit(classes@, size as int) < classes@.len() ==> classes@[first_fit(
                classes@,
                size as int,
            )].size >= size,
            forall|k: int|
                0 <= k < first_fit(classes@, size as int) ==> classes@[k].size < size,
        decreases classes@.len() - i,
    {
        if classes[i].size as usize >= size {
            return Some(i);
        }
        i = i + 1;
    }
    None
}

/// Among classes sorted by size, the first that fits is the smallest that
/// does.
pub proof fn first_fit_is_smallest(classes: Seq<SizeClass>, size: int, other: int)
    requires
        increasing(classes),
        0 <= other < classes.len(),
        classes[other].size >= size,
    ensures
        first_fit(classes, size) < classes.len(),
        classes[first_fit(classes, size)].size <= classes[other].size,
{
    lemma_first_fit(classes, size);
    let i = first_fit(classes, size);
    if other < i {
        assert(classes[other].size < size);
    } else if i < other {
        assert(classes[i].size < classes[other].size);
    }
}

/// Sizes grow strictly from class to class.
pub open spec fn increasing(classes: Seq<SizeClass>) -> bool {
    forall|i: int, j: int|
        0 <= i < j < classes.len() ==> (#[trigger] classes[i]).size < (#[trigger] classes[j]).size
}

/// `c` put in its place among the sorted `s`, after any of the same size.
pub open spec fn placed(s: Seq<SizeClass>, c: SizeClass) -> Seq<SizeClass>
    decreases s.len(),
{
    if s.len() == 0 || s.last().size <= c.size {
        s.push(c)
    } else {
        placed(s.drop_last(), c).push(s.last())
    }
}

/// `s` sorted by size; classes of one size keep their order.
pub open spec fn sorted(s: Seq<SizeClass>) -> Seq<SizeClass>
    decreases s.len(),
{
    if s.len() == 0 {
        s
    } else {
        placed(sorted(s.drop_last()), s.last())
    }
}

/// No two classes have the same size.
pub open spec fn distinct_sizes(s: Seq<SizeClass>) -> bool {
    forall|i: int, j: int|
        0 <= i < j < s.len() ==> (#[trigger] s[i]).size != (#[trigger] s[j]).size
}

proof fn lemma_placed(s: Seq<SizeClass>, c: SizeClass)
    ensures
        placed(s, c).len() == s.len() + 1,
        placed(s, c).to_multiset() == s.push(c).to_multiset(),
        forall|x: SizeClass|
            #![trigger placed(s, c).contains(x)]
            #![trigger s.contains(x)]
            placed(s, c).contains(x) <==> (s.contains(x) || x == c),
    decreases s.len(),
{
    if s.len() == 0 || s.last().size <= c.size {
        assert forall|x: SizeClass|
            #![trigger s.push(c).contains(x)]
            #![trigger s.contains(x)]
            s.push(c).contains(x) <==> (s.contains(x) || x == c) by {
            lemma_push_contains(s, c, x);
        }
    } else {
        let head = s.drop_last();
        lemma_placed(head, c);
        let p = placed(head, c);
        broadcast use vstd::seq_lib::group_to_multiset_ensures;

        assert(s =~= head.push(s.last()));
        assert(placed(s, c).to_multiset() =~= s.push(c).to_multiset());
        assert forall|x: SizeClass|
            #![trigger placed(s, c).contains(x)]
            #![trigger s.contains(x)]
            placed(s, c).contains(x) <==> (s.contains(x) || x == c) by {
            lemma_push_contains(p, s.last(), x);
            lemma_push_contains(head, s.last(), x);
        }
    }
}

proof fn lemma_push_contains(s: Seq<SizeClass>, c: SizeClass, x: SizeClass)
    ensures
        s.push(c).contains(x) <==> (s.contains(x) || x == c),
{
    if s.contains(x) {
        let i = choose|i: int| 0 <= i < s.len() && s[i] == x;
        assert(s.push(c)[i] == x);
    }
    assert(s.push(c)[s.len() as int] == c);
    if s.push(c).contains(x) && x != c {
        let i = choose|i: int| 0 <= i < s.push(c).len() && s.push(c)[i] == x;
        assert(s[i] == x);
    }
}

proof fn lemma_placed_increasing(s: Seq<SizeClass>, c: SizeClass)
    requires
        increasing(s),
        forall|i: int| 0 <= i < s.len() ==> (#[trigger] s[i]).size != c.size,
    ensures
        increasing(placed(s, c)),
    decreases s.len(),
{
    lemma_placed(s, c);
    if s.len() == 0 {
    } else if s.last().size <= c.size {
        assert forall|i: int, j: int| 0 <= i < j < s.push(c).len() implies (#[trigger] s.push(
            c,
        )[i]).size < (#[trigger] s.push(c)[j]).size by {
            if j == s.len() {
                if i < s.len() - 1 {
                    assert(s[i].size < s[s.len() - 1].size);
                }
                assert(s[s.len() - 1].size != c.size);
            } else {
                assert(s[i].size < s[j].size);
            }
        }
    } else {
        let head = s.drop_last();
        lemma_placed_increasing(head, c);
        lemma_placed(head, c);
        let p = placed(head, c);
        let all = placed(s, c);
        assert forall|i: int, j: int| 0 <= i < j < all.len() implies (#[trigger] all[i]).size < (
        #[trigger] all[j]).size by {
            if j == p.len() {
                assert(p.contains(p[i]));
                if head.contains(p[i]) {
                    let k = choose|k: int| 0 <= k < head.len() && head[k] == p[i];
                    assert(s[k].size < s[s.len() - 1].size);
                }
            } else {
                assert(p[i].size < p[j].size);
            }
        }
    }
}

/// Sorting keeps exactly the classes it is given, and with distinct sizes the
/// result grows strictly.
pub proof fn sorting_orders_the_same_classes(s: Seq<SizeClass>)
    ensures
        sorted(s).len() == s.len(),
        sorted(s).to_multiset() == s.to_multiset(),
        forall|x: SizeClass|
            #![trigger sorted(s).contains(x)]
            #![trigger s.contains(x)]
            sorted(s).contains(x) <==> s.contains(x),
        distinct_sizes(s) ==> increasing(sorted(s)),
    decreases s.len(),
{
    if s.len() > 0 {
        let head = s.drop_last();
        let c = s.last();
        sorting_orders_the_same_classes(head);
        let t = sorted(head);
        lemma_placed(t, c);
        broadcast use vstd::seq_lib::group_to_multiset_ensures;

        assert(s =~= head.push(c));
        assert(sorted(s).to_multiset() =~= s.to_multiset());
        assert forall|x: SizeClass|
            #![trigger sorted(s).contains(x)]
            #![trigger s.contains(x)]
            sorted(s).contains(x) <==> s.contains(x) by {
            lemma_push_contains(head, c, x);
        }
        if distinct_sizes(s) {
            assert(distinct_sizes(head)) by {
                assert forall|i: int, j: int| 0 <= i < j < head.len() implies (
                #[trigger] head[i]).size != (#[trigger] head[j]).size by {
                    assert(s[i].size != s[j].size);
                }
            }
            assert forall|i: int| 0 <= i < t.len() implies (#[trigger] t[i]).size != c.size by {
                assert(t.contains(t[i]));
                let k = choose|k: int| 0 <= k < head.len() && head[k] == t[i];
                assert(s[k].size != s[s.len() - 1].size);
            }
            lemma_placed_increasing(t, c);
        }
    }
}

/// The alignment of a class's slots: their size, up to one page.
pub open spec fn slot_align(size: u32) -> int {
    if size < BUFFER_MAX_ALIGN {
        size as int
    } else {
        BUFFER_MAX_ALIGN as int
    }
}

/// The first multiple of `align` that is not below `x`.
pub open spec fn align_up(x: int, align: int) -> int {
    (x + align - 1) / align * align
}

pub proof fn lemma_align_up(x: int, align: int)
    requires
        x >= 0,
        align > 0,
    ensures
        x <= align_up(x, align) < x + align,
        align_up(x, align) % align == 0,
        x % align == 0 ==> align_up(x, align) == x,
{
    let n = x + align - 1;
    let q = n / align;
    lemma_fundamental_div_mod(n, align);
    lemma_mul_is_commutative(align, q);
    lemma_mod_multiples_basic(q, align);
    if x % align == 0 {
        let k = x / align;
        lemma_fundamental_div_mod(x, align);
        lemma_mul_is_commutative(align, k);
        assert(q == k) by (nonlinear_arith)
            requires
                x == align * k,
                n == x + align - 1,
                n == align * q + n % align,
                0 <= n % align < align,
                align > 0,
        ;
    }
}

/// Where the last of the classes `s` starts in the slab.
pub open spec fn base_of(s: Seq<SizeClass>) -> int
    decreases s.len(), 0int,
{
    if s.len() == 0 {
        0
    } else {
        align_up(total_of(s.drop_last()), slot_align(s.last().size))
    }
}

/// How many bytes of the slab the classes `s` take, gaps between them counted.
pub open spec fn total_of(s: Seq<SizeClass>) -> int
    decreases s.len(), 1int,
{
    if s.len() == 0 {
        0
    } else {
        base_of(s) + s.last().size * s.last().count
    }
}

/// The place of one class in a slab.
#[derive(Debug, Clone, Copy, PartialEq, Eq, Structural)]
pub struct SizeClassLayout {
    pub size: u32,
    pub count: u32,
    /// Where the class's first slot starts.
    pub base_offset: u32,
    /// Bytes of the slab up to the end of this class.
    pub total: u64,
}

/// A power of two has a single bit set.
pub open spec fn power_of_two(n: u32) -> bool {
    n > 0 && n & ((n - 1) as u32) == 0
}

pub fn is_power_of_two(n: u32) -> (yes: bool)
    ensures
        yes == power_of_two(n),
{
    n > 0 && n & (n - 1) == 0
}

/// Whether a class can be part of a pool. A pool that backs kernel rings needs
/// powers of two.
pub open spec fn class_ok(c: SizeClass, rings: bool) -> bool {
    &&& c.size > 0
    &&& 0 < c.count <= BID_LOCAL_MASK
    &&& rings ==> power_of_two(c.count) && c.count <= MAX_RING_COUNT
}

/// Whether a pool can be laid out over `classes`.
pub open spec fn classes_ok(classes: Seq<SizeClass>, rings: bool) -> bool {
    &&& 0 < classes.len() <= 256
    &&& distinct_sizes(classes)
    &&& forall|i: int| 0 <= i < classes.len() ==> class_ok(#[trigger] classes[i], rings)
    &&& total_of(sorted(classes)) <= u32::MAX
}

/// The layout of the sorted classes `s`.
pub open spec fn layout_of(s: Seq<SizeClass>) -> Seq<SizeClassLayout> {
    Seq::new(
        s.len(),
        |i: int|
            SizeClassLayout {
                size: s[i].size,
                count: s[i].count,
                base_offset: base_of(s.take(i + 1)) as u32,
                total: total_of(s.take(i + 1)) as u64,
            },
    )
}

pub proof fn lemma_totals(s: Seq<SizeClass>)
    requires
        forall|i: int| 0 <= i < s.len() ==> (#[trigger] s[i]).size > 0,
    ensures
        0 <= base_of(s) <= total_of(s),
        s.len() > 0 ==> total_of(s.drop_last()) <= base_of(s),
    decreases s.len(),
{
    if s.len() > 0 {
        let t = s.drop_last();
        assert forall|i: int| 0 <= i < t.len() implies (#[trigger] t[i]).size > 0 by {
            assert(t[i] == s[i]);
        }
        lemma_totals(t);
        assert(s.last() == s[s.len() - 1]);
        lemma_align_up(total_of(t), slot_align(s.last().size));
        assert(0 <= s.last().size * s.last().count) by (nonlinear_arith)
            requires
                0 <= s.last().size,
                0 <= s.last().count,
        ;
    }
}

pub proof fn lemma_totals_grow(s: Seq<SizeClass>, i: int, j: int)
    requires
        forall|k: int| 0 <= k < s.len() ==> (#[trigger] s[k]).size > 0,
        0 <= i <= j <= s.len(),
    ensures
        0 <= total_of(s.take(i)) <= total_of(s.take(j)),
    decreases j - i,
{
    let t = s.take(j);
    assert forall|k: int| 0 <= k < t.len() implies (#[trigger] t[k]).size > 0 by {
        assert(t[k] == s[k]);
    }
    lemma_totals(t);
    if i < j {
        assert(t.drop_last() =~= s.take(j - 1));
        lemma_totals_grow(s, i, j - 1);
    }
}

/// Sorts `classes` by size.
pub fn sort_classes(classes: &[SizeClass]) -> (out: Vec<SizeClass>)
    ensures
        out@ == sorted(classes@),
{
    let mut out: Vec<SizeClass> = Vec::new();
    let mut i: usize = 0;
    assert(classes@.take(0) =~= Seq::empty());
    while i < classes.len()
        invariant
            i <= classes@.len(),
            out@ == sorted(classes@.take(i as int)),
        decreases classes@.len() - i,
    {
        let c: SizeClass = classes[i];
        let ghost before = out@;
        let mut k: usize = out.len();
        assert(before.take(k as int) =~= before);
        assert(placed(before, c) + before.skip(k as int) =~= placed(before, c));
        while k > 0 && out[k - 1].size > c.size
            invariant
                k <= out@.len(),
                out@ == before,
                placed(before, c) == placed(before.take(k as int), c) + before.skip(k as int),
            decreases k,
        {
            proof {
                let t = before.take(k as int);
                assert(t.last() == before[k - 1]);
                assert(t.drop_last() =~= before.take(k - 1));
                assert(placed(t, c) == placed(t.drop_last(), c).push(t.last()));
                assert(placed(t, c) + before.skip(k as int) =~= placed(before.take(k - 1), c)
                    + before.skip(k - 1));
            }
            k = k - 1;
        }
        proof {
            let t = before.take(k as int);
            if k > 0 {
                assert(t.last() == before[k - 1]);
            }
            assert(placed(t, c) == t.push(c));
            assert(before.insert(k as int, c) =~= t.push(c) + before.skip(k as int));
        }
        out.insert(k, c);
        i = i + 1;
        assert(classes@.take(i as int).drop_last() =~= classes@.take(i - 1));
    }
    assert(classes@.take(i as int) =~= classes@);
    out
}

/// Whether a pool can be laid out over `classes`.
pub fn check_classes(classes: &[SizeClass], rings: bool) -> (ok: bool)
    ensures
        ok == classes_ok(classes@, rings),
{
    if classes.len() == 0 || classes.len() > 256 {
        return false;
    }
    proof {
        sorting_orders_the_same_classes(classes@);
    }
    let s: Vec<SizeClass> = sort_classes(classes);
    let mut i: usize = 0;
    let mut base: u64 = 0;
    assert(s@.take(0) =~= Seq::empty());
    while i < s.len()
        invariant
            i <= s@.len(),
            s@ == sorted(classes@),
            s@.len() == classes@.len(),
            forall|x: SizeClass|
                #![trigger s@.contains(x)]
                #![trigger classes@.contains(x)]
                s@.contains(x) <==> classes@.contains(x),
            distinct_sizes(classes@) ==> increasing(s@),
            forall|k: int| 0 <= k < i ==> class_ok(#[trigger] s@[k], rings),
            increasing(s@.take(i as int)),
            base == total_of(s@.take(i as int)),
            base <= u32::MAX,
        decreases s@.len() - i,
    {
        let c: SizeClass = s[i];
        proof {
            assert(s@.contains(s@[i as int]));
            if !class_ok(c, rings) {
                let k = choose|k: int| 0 <= k < classes@.len() && classes@[k] == c;
                assert(!class_ok(classes@[k], rings));
            }
        }
        if c.size == 0 || c.count == 0 || c.count > BID_LOCAL_MASK {
            return false;
        }
        if rings && (!is_power_of_two(c.count) || c.count > MAX_RING_COUNT) {
            return false;
        }
        if i > 0 && s[i - 1].size >= c.size {
            proof {
                if distinct_sizes(classes@) {
                    assert(s@[i - 1].size < s@[i as int].size);
                }
            }
            return false;
        }
        let align: u64 = if c.size < BUFFER_MAX_ALIGN {
            c.size as u64
        } else {
            BUFFER_MAX_ALIGN as u64
        };
        proof {
            lemma_align_up(base as int, align as int);
            let t = s@.take(i + 1);
            assert(t.drop_last() =~= s@.take(i as int));
            assert(t.last() == c);
            assert(c.size * c.count <= 0xFFFF_FFFF * 0xFF_FFFF) by (nonlinear_arith)
                requires
                    0 <= c.size <= 0xFFFF_FFFF,
                    0 <= c.count <= 0xFF_FFFF,
            ;
        }
        let start: u64 = (base + align - 1) / align * align;
        let total: u64 = start + c.size as u64 * c.count as u64;
        if total > u32::MAX as u64 {
            proof {
                assert forall|k: int| 0 <= k < s@.len() && classes_ok(
                    classes@,
                    rings,
                ) implies (#[trigger] s@[k]).size > 0 by {
                    assert(s@.contains(s@[k]));
                    let m = choose|m: int| 0 <= m < classes@.len() && classes@[m] == s@[k];
                    assert(class_ok(classes@[m], rings));
                }
                if classes_ok(classes@, rings) {
                    lemma_totals_grow(s@, i + 1, s@.len() as int);
                    assert(s@.take(s@.len() as int) =~= s@);
                }
            }
            return false;
        }
        proof {
            let t = s@.take(i + 1);
            assert forall|a: int, b: int| 0 <= a < b < t.len() implies (#[trigger] t[a]).size < (
            #[trigger] t[b]).size by {
                let u = s@.take(i as int);
                if b == i {
                    if a < i - 1 {
                        assert(u[a].size < u[i - 1].size);
                    }
                    assert(s@[i - 1].size < c.size);
                } else {
                    assert(u[a].size < u[b].size);
                }
            }
        }
        base = total;
        i = i + 1;
    }
    proof {
        assert(s@.take(i as int) =~= s@);
        assert forall|k: int| 0 <= k < classes@.len() implies class_ok(
            #[trigger] classes@[k],
            rings,
        ) by {
            assert(classes@.contains(classes@[k]));
            let m = choose|m: int| 0 <= m < s@.len() && s@[m] == classes@[k];
            assert(class_ok(s@[m], rings));
        }
        lemma_increasing_distinct(classes@);
    }
    true
}

/// Classes whose sorted form grows strictly have distinct sizes.
pub proof fn lemma_increasing_distinct(s: Seq<SizeClass>)
    requires
        increasing(sorted(s)),
    ensures
        distinct_sizes(s),
{
    sorting_orders_the_same_classes(s);
    let t = sorted(s);
    if !distinct_sizes(s) {
        let (i, j) = choose|i: int, j: int|
            0 <= i < j < s.len() && (#[trigger] s[i]).size == (#[trigger] s[j]).size;
        assert(s.contains(s[i]) && s.contains(s[j]));
        let a = choose|a: int| 0 <= a < t.len() && t[a] == s[i];
        let b = choose|b: int| 0 <= b < t.len() && t[b] == s[j];
        if a < b {
            assert(t[a].size < t[b].size);
        } else if b < a {
            assert(t[b].size < t[a].size);
        } else {
            // One entry stands for both: count it twice in `s`, once in `t`.
            let x = s[i];
            assert(s[j] == x);
            lemma_two_occurrences(s, i, j);
            lemma_one_occurrence(t, a);
        }
    }
}

proof fn lemma_two_occurrences(s: Seq<SizeClass>, i: int, j: int)
    requires
        0 <= i < j < s.len(),
        s[i] == s[j],
    ensures
        s.to_multiset().count(s[i]) >= 2,
{
    broadcast use vstd::seq_lib::group_to_multiset_ensures;

    let x = s[i];
    let r = s.remove(j);
    assert(r[i] == x);
    assert(r.contains(x));
    assert(s =~= r.insert(j, x));
    assert(r.to_multiset().count(x) > 0);
    assert(s.to_multiset() =~= r.to_multiset().insert(x));
}

proof fn lemma_one_occurrence(s: Seq<SizeClass>, a: int)
    requires
        increasing(s),
        0 <= a < s.len(),
    ensures
        s.to_multiset().count(s[a]) == 1,
{
    broadcast use vstd::seq_lib::group_to_multiset_ensures;

    let x = s[a];
    let r = s.remove(a);
    assert(!r.contains(x)) by {
        if r.contains(x) {
            let k = choose|k: int| 0 <= k < r.len() && r[k] == x;
            if k < a {
                assert(s[k].size < s[a].size);
            } else {
                assert(s[a].size < s[k + 1].size);
            }
        }
    }
    assert(s =~= r.insert(a, x));
    assert(r.to_multiset().count(x) == 0);
    assert(s.to_multiset() =~= r.to_multiset().insert(x));
}

/// Lays out a pool over `classes`: they are sorted by size, and each starts at
/// the first offset after the previous one that suits its alignment.
pub fn layout_classes(classes: &[SizeClass], power_of_two_counts: bool) -> (layouts: Vec<
    SizeClassLayout,
>)
    requires
        classes_ok(classes@, power_of_two_counts),
    ensures
        layouts@ == layout_of(sorted(classes@)),
{
    proof {
        sorting_orders_the_same_classes(classes@);
    }
    let s: Vec<SizeClass> = sort_classes(classes);
    let mut layouts: Vec<SizeClassLayout> = Vec::with_capacity(s.len());
    let mut base: u64 = 0;
    let mut i: usize = 0;
    proof {
        assert(s@.take(0) =~= Seq::empty());
        assert forall|k: int| 0 <= k < s@.len() implies class_ok(
            #[trigger] s@[k],
            power_of_two_counts,
        ) by {
            assert(s@.contains(s@[k]));
            let m = choose|m: int| 0 <= m < classes@.len() && classes@[m] == s@[k];
            assert(class_ok(classes@[m], power_of_two_counts));
        }
        assert(s@.take(s@.len() as int) =~= s@);
    }
    while i < s.len()
        invariant
            i <= s@.len(),
            s@ == sorted(classes@),
            forall|k: int| 0 <= k < s@.len() ==> class_ok(#[trigger] s@[k], power_of_two_counts),
            total_of(s@) <= u32::MAX,
            s@.take(s@.len() as int) == s@,
            base == total_of(s@.take(i as int)),
            layouts@.len() == i,
            forall|k: int| 0 <= k < i ==> #[trigger] layouts@[k] == layout_of(s@)[k],
        decreases s@.len() - i,
    {
        let c: SizeClass = s[i];
        let align: u64 = if c.size < BUFFER_MAX_ALIGN {
            c.size as u64
        } else {
            BUFFER_MAX_ALIGN as u64
        };
        proof {
            let t = s@.take(i + 1);
            assert(t.drop_last() =~= s@.take(i as int));
            assert(t.last() == c);
            lemma_totals_grow(s@, i + 1, s@.len() as int);
            lemma_totals_grow(s@, i as int, s@.len() as int);
            lemma_totals(t);
            lemma_align_up(base as int, align as int);
            assert(c.size * c.count <= 0xFFFF_FFFF * 0xFF_FFFF) by (nonlinear_arith)
                requires
                    0 <= c.size <= 0xFFFF_FFFF,
                    0 <= c.count <= 0xFF_FFFF,
            ;
        }
        let start: u64 = (base + align - 1) / align * align;
        let total: u64 = start + c.size as u64 * c.count as u64;
        layouts.push(
            SizeClassLayout { size: c.size, count: c.count, base_offset: start as u32, total },
        );
        base = total;
        i = i + 1;
    }
    assert(layouts@ =~= layout_of(s@));
    layouts
}

/// A class starts where the one before it has ended, so no two slots overlap.
pub proof fn classes_do_not_overlap(s: Seq<SizeClass>, i: int, j: int)
    requires
        forall|k: int| 0 <= k < s.len() ==> (#[trigger] s[k]).size > 0,
        total_of(s) <= u32::MAX,
        0 <= i < j < s.len(),
    ensures
        layout_of(s)[i].total <= layout_of(s)[j].base_offset,
        layout_of(s)[i].base_offset + s[i].size * s[i].count == layout_of(s)[i].total,
{
    let ti = s.take(i + 1);
    let tj = s.take(j + 1);
    assert(s.take(s.len() as int) =~= s);
    assert forall|k: int| 0 <= k < tj.len() implies (#[trigger] tj[k]).size > 0 by {
        assert(tj[k] == s[k]);
    }
    assert forall|k: int| 0 <= k < ti.len() implies (#[trigger] ti[k]).size > 0 by {
        assert(ti[k] == s[k]);
    }
    lemma_totals(tj);
    lemma_totals(ti);
    assert(tj.drop_last() =~= s.take(j));
    lemma_totals_grow(s, i + 1, j);
    lemma_totals_grow(s, j + 1, s.len() as int);
    lemma_totals_grow(s, i + 1, s.len() as int);
    assert(ti.last() == s[i]);
}

/// Every slot of a class starts at a multiple of the class's alignment, when
/// the slot size is itself a multiple of it: any size up to a page, and whole
/// pages beyond.
pub proof fn slots_are_aligned(s: Seq<SizeClass>, i: int, slot: int)
    requires
        forall|k: int| 0 <= k < s.len() ==> (#[trigger] s[k]).size > 0,
        total_of(s) <= u32::MAX,
        0 <= i < s.len(),
        0 <= slot < s[i].count,
        s[i].size as int % slot_align(s[i].size) == 0,
    ensures
        (layout_of(s)[i].base_offset + slot * s[i].size) % slot_align(s[i].size) == 0,
{
    let t = s.take(i + 1);
    assert(s.take(s.len() as int) =~= s);
    assert forall|k: int| 0 <= k < t.len() implies (#[trigger] t[k]).size > 0 by {
        assert(t[k] == s[k]);
    }
    assert(t.last() == s[i]);
    lemma_totals(t);
    lemma_totals_grow(s, i + 1, s.len() as int);
    assert(t.drop_last() =~= s.take(i));
    let u = s.take(i);
    assert forall|k: int| 0 <= k < u.len() implies (#[trigger] u[k]).size > 0 by {
        assert(u[k] == s[k]);
    }
    lemma_totals(u);
    let a = slot_align(s[i].size);
    lemma_align_up(total_of(u), a);
    let b = base_of(t);
    let z = s[i].size as int;
    let q = z / a;
    lemma_fundamental_div_mod(z, a);
    assert(slot * z == a * (slot * q)) by (nonlinear_arith)
        requires
            z == a * q,
    ;
    lemma_mod_multiples_vanish(slot * q, b, a);
}

/// A class is laid out with the size and the count that were asked for, at the
/// first place behind the one before that is a multiple of its slot size, or of
/// 4096 for larger slots.
pub proof fn classes_keep_their_slots(s: Seq<SizeClass>, i: int)
    requires
        forall|k: int| 0 <= k < s.len() ==> (#[trigger] s[k]).size > 0,
        total_of(s) <= u32::MAX,
        0 <= i < s.len(),
    ensures
        ({
            let align = if s[i].size <= 4096 {
                s[i].size as int
            } else {
                4096
            };
            let before = if i == 0 {
                0
            } else {
                layout_of(s)[i - 1].total as int
            };
            let here = layout_of(s)[i];
            &&& layout_of(s).len() == s.len()
            &&& here.size == s[i].size && here.count == s[i].count
            &&& here.base_offset as int % align == 0
            &&& before <= here.base_offset < before + align
            &&& here.total == here.base_offset + s[i].size * s[i].count
        }),
{
    let head = s.take(i + 1);
    assert(head.drop_last() =~= s.take(i));
    assert(head.last() == s[i]);
    lemma_totals_grow(s, i, i + 1);
    lemma_totals_grow(s, i + 1, s.len() as int);
    lemma_totals_grow(s, 0, i);
    assert(s.take(s.len() as int) =~= s);
    lemma_totals(head);
    lemma_align_up(total_of(s.take(i)), slot_align(s[i].size));
    if i == 0 {
        assert(s.take(0) =~= Seq::<SizeClass>::empty());
    }
}

/// The powers of two, and no other numbers, count as such.
pub proof fn powers_of_two_have_one_bit(n: u32, i: u32, j: u32)
    requires
        i < 32,
        j < 32,
    ensures
        power_of_two(1u32 << i),
        i != j && n & (1u32 << i) != 0 && n & (1u32 << j) != 0 ==> !power_of_two(n),
        !power_of_two(0),
{
    let p = 1u32 << i;
    assert(p > 0 && p & ((p - 1) as u32) == 0) by (bit_vector)
        requires
            i < 32,
            p == 1u32 << i,
    ;
    if n > 0 {
        assert(i != j && n & (1u32 << i) != 0 && n & (1u32 << j) != 0 ==> n & ((n - 1) as u32) != 0)
            by (bit_vector)
            requires
                n > 0,
                i < 32,
                j < 32,
        ;
    }
}

/// What a class may be: of some size, with 1 to 16777215 slots, and where it
/// backs a kernel ring with a power of two of them, up to 32768.
pub proof fn class_limits(c: SizeClass, rings: bool)
    ensures
        class_ok(c, false) <==> c.size > 0 && 0 < c.count <= 16777215,
        class_ok(c, true) <==> c.size > 0 && 0 < c.count <= 32768 && power_of_two(c.count),
        class_ok(c, true) ==> class_ok(c, rings),
{
}

/// What the classes of a pool may be: 1 to 256, no two of one size, each of
/// them allowed, and no more than 4294967295 bytes together.
pub proof fn pool_limits(all: Seq<SizeClass>, rings: bool)
    ensures
        classes_ok(all, rings) <==> {
            &&& 1 <= all.len() <= 256
            &&& forall|i: int, j: int|
                0 <= i < j < all.len() ==> (#[trigger] all[i]).size != (#[trigger] all[j]).size
            &&& forall|i: int| 0 <= i < all.len() ==> class_ok(#[trigger] all[i], rings)
            &&& total_of(sorted(all)) <= 4294967295
        },
{
}

/// Without anything else said, there are six classes, from 64 bytes to 65536,
/// each four times the one before.
pub proof fn default_classes_grow_fourfold(i: int)
    requires
        0 <= i < 5,
    ensures
        default_classes().len() == 6,
        default_classes()[0].size == 64,
        default_classes()[i + 1].size == 4 * default_classes()[i].size,
        default_classes()[0].count == 2048 && default_classes()[1].count == 2048
            && default_classes()[2].count == 512 && default_classes()[3].count == 128
            && default_classes()[4].count == 16 && default_classes()[5].count == 2,
{
}

/// A buffer id is the class in its top byte and the slot in the other three.
pub proof fn buffer_id_layout(class: u32, local: u32)
    requires
        class < 256,
        local < 16777216,
    ensures
        packed(class, local) == class * 16777216 + local,
{
    assert((class << 24) | local == class * 16777216 + local) by (bit_vector)
        requires
            class < 256,
            local < 16777216,
    ;
}

} // verus!
