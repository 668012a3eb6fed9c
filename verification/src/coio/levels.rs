//! Buffer size levels: runs of equal slots laid out back to back in one slab.
//!
//! A level differs from a size class in that its slots are not aligned: it
//! starts where the one before it ends.

use vstd::prelude::*;

use crate::coio::classes;
use crate::coio::classes::SizeClass;

verus! {

/// A run of `count` slots of `size` bytes.
#[derive(Debug, Clone, Copy, PartialEq, Eq, Structural)]
pub struct Level {
    pub size: u32,
    pub count: u32,
}

/// The levels a runtime has unless told otherwise.
pub open spec fn default_table() -> Seq<Level> {
    seq![
        Level { size: 64, count: 2048 },
        Level { size: 256, count: 2048 },
        Level { size: 1024, count: 512 },
        Level { size: 4096, count: 128 },
        Level { size: 16384, count: 16 },
        Level { size: 65536, count: 2 },
    ]
}

/// The levels a runtime has unless told otherwise.
pub fn default_levels() -> (levels: Vec<Level>)
    ensures
        levels@ == default_table(),
{
    let mut levels: Vec<Level> = Vec::new();
    levels.push(Level { size: 64, count: 2048 });
    levels.push(Level { size: 256, count: 2048 });
    levels.push(Level { size: 1024, count: 512 });
    levels.push(Level { size: 4096, count: 128 });
    levels.push(Level { size: 16384, count: 16 });
    levels.push(Level { size: 65536, count: 2 });
    levels
}

pub const BID_LEVEL_SHIFT: u32 = 24;

pub const BID_LOCAL_MASK: u32 = 0x00FF_FFFF;

/// Packs a level and a slot within it into a buffer id.
pub fn pack_bid(level: u32, local: u32) -> (bid: u32)
    requires
        level < 256,
        local <= BID_LOCAL_MASK,
    ensures
        bid == classes::packed(level, local),
{
    classes::pack_bid(level, local)
}

/// The level that a buffer id names.
pub fn bid_level(bid: u32) -> (level: u32)
    ensures
        level == bid >> 24,
        level < 256,
{
    classes::bid_class(bid)
}

/// The slot within its level that a buffer id names.
pub fn bid_local(bid: u32) -> (local: u32)
    ensures
        local == bid & 0x00FF_FFFF,
        local <= BID_LOCAL_MASK,
{
    classes::bid_local(bid)
}

/// The levels as size classes.
pub open spec fn as_classes(levels: Seq<Level>) -> Seq<SizeClass> {
    levels.map_values(|l: Level| SizeClass { size: l.size, count: l.count })
}

fn to_classes(levels: &[Level]) -> (all: Vec<SizeClass>)
    ensures
        all@ == as_classes(levels@),
{
    let mut all: Vec<SizeClass> = Vec::new();
    let mut i: usize = 0;
    while i < levels.len()
        invariant
            i <= levels@.len(),
            all@ == as_classes(levels@.take(i as int)),
        decreases levels@.len() - i,
    {
        all.push(SizeClass { size: levels[i].size, count: levels[i].count });
        i = i + 1;
        assert(all@ =~= as_classes(levels@.take(i as int)));
    }
    assert(levels@.take(i as int) =~= levels@);
    all
}

/// The level whose slots are the smallest that hold `size` bytes. `levels` is
/// sorted by size.
pub fn level_for(levels: &[Level], size: usize) -> (level: Option<usize>)
    ensures
        level == if classes::first_fit(as_classes(levels@), size as int) < levels@.len() {
            Some(classes::first_fit(as_classes(levels@), size as int) as usize)
        } else {
            None
        },
{
    let all: Vec<SizeClass> = to_classes(levels);
    classes::class_for(all.as_slice(), size)
}

/// The place of one level in a slab.
#[derive(Debug, Clone, Copy, PartialEq, Eq, Structural)]
pub struct LevelLayout {
    pub size: u32,
    pub count: u32,
    /// Where the level's first slot starts.
    pub base_offset: u32,
    /// Bytes of the slab up to the end of this level.
    pub total: u64,
}

/// The bytes of all slots of all levels.
pub open spec fn bytes_of(s: Seq<SizeClass>) -> int
    decreases s.len(),
{
    if s.len() == 0 {
        0
    } else {
        bytes_of(s.drop_last()) + s.last().size * s.last().count
    }
}

/// Whether a slab can be laid out over `levels`.
pub open spec fn levels_ok(levels: Seq<Level>, rings: bool) -> bool {
    let all = as_classes(levels);
    &&& 0 < levels.len() <= 256
    &&& classes::distinct_sizes(all)
    &&& forall|i: int| 0 <= i < all.len() ==> classes::class_ok(#[trigger] all[i], rings)
    &&& bytes_of(classes::sorted(all)) <= u32::MAX
}

/// The layout of the sorted levels `s`: each starts where those before it end.
pub open spec fn layout_of(s: Seq<SizeClass>) -> Seq<LevelLayout> {
    Seq::new(
        s.len(),
        |i: int|
            LevelLayout {
                size: s[i].size,
                count: s[i].count,
                base_offset: bytes_of(s.take(i)) as u32,
                total: bytes_of(s.take(i + 1)) as u64,
            },
    )
}

proof fn lemma_bytes_grow(s: Seq<SizeClass>, i: int, j: int)
    requires
        0 <= i <= j <= s.len(),
    ensures
        0 <= bytes_of(s.take(i)) <= bytes_of(s.take(j)),
    decreases j,
{
    let t = s.take(j);
    if j == 0 {
    } else {
        assert(t.drop_last() =~= s.take(j - 1));
        assert(0 <= t.last().size * t.last().count) by (nonlinear_arith)
            requires
                0 <= t.last().size,
                0 <= t.last().count,
        ;
        if i < j {
            lemma_bytes_grow(s, i, j - 1);
        } else {
            lemma_bytes_grow(s, j - 1, j - 1);
        }
    }
}

/// Whether a slab can be laid out over `levels`.
pub fn check_levels(levels: &[Level], rings: bool) -> (ok: bool)
    ensures
        ok == levels_ok(levels@, rings),
{
    if levels.len() == 0 || levels.len() > 256 {
        return false;
    }
    let all: Vec<SizeClass> = to_classes(levels);
    proof {
        classes::sorting_orders_the_same_classes(all@);
    }
    let s: Vec<SizeClass> = classes::sort_classes(all.as_slice());
    let mut i: usize = 0;
    let mut base: u64 = 0;
    assert(s@.take(0) =~= Seq::empty());
    while i < s.len()
        invariant
            i <= s@.len(),
            all@ == as_classes(levels@),
            s@ == classes::sorted(all@),
            s@.len() == all@.len() == levels@.len(),
            forall|x: SizeClass|
                #![trigger s@.contains(x)]
                #![trigger all@.contains(x)]
                s@.contains(x) <==> all@.contains(x),
            classes::distinct_sizes(all@) ==> classes::increasing(s@),
            forall|k: int| 0 <= k < i ==> classes::class_ok(#[trigger] s@[k], rings),
            classes::increasing(s@.take(i as int)),
            base == bytes_of(s@.take(i as int)),
            base <= u32::MAX,
        decreases s@.len() - i,
    {
        let c: SizeClass = s[i];
        proof {
            assert(s@.contains(s@[i as int]));
            if !classes::class_ok(c, rings) {
                let k = choose|k: int| 0 <= k < all@.len() && all@[k] == c;
                assert(!classes::class_ok(all@[k], rings));
            }
        }
        if c.size == 0 || c.count == 0 || c.count > BID_LOCAL_MASK {
            return false;
        }
        if rings && (!classes::is_power_of_two(c.count) || c.count > classes::MAX_RING_COUNT) {
            return false;
        }
        if i > 0 && s[i - 1].size >= c.size {
            proof {
                if classes::distinct_sizes(all@) {
                    assert(s@[i - 1].size < s@[i as int].size);
                }
            }
            return false;
        }
        proof {
            let t = s@.take(i + 1);
            assert(t.drop_last() =~= s@.take(i as int));
            assert(t.last() == c);
            assert(c.size * c.count <= 0xFFFF_FFFF * 0xFF_FFFF) by (nonlinear_arith)
                requires
                    0 <= c.size <= 0xFFFF_FFFF,
                    0 <= c.count <= 0xFF_FFFF,
            ;
        }
        let total: u64 = base + c.size as u64 * c.count as u64;
        if total > u32::MAX as u64 {
            proof {
                lemma_bytes_grow(s@, i + 1, s@.len() as int);
                assert(s@.take(s@.len() as int) =~= s@);
            }
            return false;
        }
        proof {
            let t = s@.take(i + 1);
            assert forall|a: int, b: int| 0 <= a < b < t.len() implies (#[trigger] t[a]).size < (
            #[trigger] t[b]).size by {
                let u = s@.take(i as int);
                if b == i {
                    if a < i - 1 {
                        assert(u[a].size < u[i - 1].size);
                    }
                    assert(s@[i - 1].size < c.size);
                } else {
                    assert(u[a].size < u[b].size);
                }
            }
        }
        base = total;
        i = i + 1;
    }
    proof {
        assert(s@.take(i as int) =~= s@);
        assert forall|k: int| 0 <= k < all@.len() implies classes::class_ok(
            #[trigger] all@[k],
            rings,
        ) by {
            assert(all@.contains(all@[k]));
            let m = choose|m: int| 0 <= m < s@.len() && s@[m] == all@[k];
            assert(classes::class_ok(s@[m], rings));
        }
        classes::lemma_increasing_distinct(all@);
    }
    true
}

/// Lays out a slab over `levels`, sorted by size.
pub fn layout_levels(levels: &[Level], power_of_two_counts: bool) -> (layouts: Vec<LevelLayout>)
    requires
        levels_ok(levels@, power_of_two_counts),
    ensures
        layouts@ == layout_of(classes::sorted(as_classes(levels@))),
{
    let all: Vec<SizeClass> = to_classes(levels);
    proof {
        classes::sorting_orders_the_same_classes(all@);
    }
    let s: Vec<SizeClass> = classes::sort_classes(all.as_slice());
    let mut layouts: Vec<LevelLayout> = Vec::new();
    let mut base: u64 = 0;
    let mut i: usize = 0;
    proof {
        assert(s@.take(0) =~= Seq::empty());
        assert(s@.take(s@.len() as int) =~= s@);
    }
    while i < s.len()
        invariant
            i <= s@.len(),
            bytes_of(s@) <= u32::MAX,
            s@.take(s@.len() as int) == s@,
            base == bytes_of(s@.take(i as int)),
            layouts@.len() == i,
            forall|k: int| 0 <= k < i ==> #[trigger] layouts@[k] == layout_of(s@)[k],
        decreases s@.len() - i,
    {
        let c: SizeClass = s[i];
        proof {
            let t = s@.take(i + 1);
            assert(t.drop_last() =~= s@.take(i as int));
            assert(t.last() == c);
            lemma_bytes_grow(s@, i + 1, s@.len() as int);
            lemma_bytes_grow(s@, i as int, s@.len() as int);
            assert(c.size * c.count == bytes_of(t) - base);
            assert(c.size * c.count >= 0) by (nonlinear_arith)
                requires
                    0 <= c.size,
                    0 <= c.count,
            ;
        }
        let total: u64 = base + c.size as u64 * c.count as u64;
        layouts.push(
            LevelLayout { size: c.size, count: c.count, base_offset: base as u32, total },
        );
        base = total;
        i = i + 1;
    }
    assert(layouts@ =~= layout_of(s@));
    layouts
}

/// Levels follow each other without gaps or overlaps.
pub proof fn levels_are_contiguous(s: Seq<SizeClass>, i: int)
    requires
        bytes_of(s) <= u32::MAX,
        0 <= i < s.len(),
    ensures
        layout_of(s)[0].base_offset == 0,
        layout_of(s)[i].total == layout_of(s)[i].base_offset + s[i].size * s[i].count,
        i + 1 < s.len() ==> layout_of(s)[i + 1].base_offset == layout_of(s)[i].total,
{
    assert(s.take(s.len() as int) =~= s);
    lemma_bytes_grow(s, i, s.len() as int);
    lemma_bytes_grow(s, i + 1, s.len() as int);
    assert(s.take(i + 1).drop_last() =~= s.take(i));
    assert(s.take(i + 1).last() == s[i]);
    assert(s.take(0) =~= Seq::empty());
}

/// A laid out level has the size and the count that were asked for.
pub proof fn levels_keep_their_slots(s: Seq<SizeClass>, i: int)
    requires
        0 <= i < s.len(),
    ensures
        layout_of(s).len() == s.len(),
        layout_of(s)[i].size == s[i].size,
        layout_of(s)[i].count == s[i].count,
{
}

/// Levels are classes of the same sizes and counts, in the same order.
pub proof fn levels_are_classes(levels: Seq<Level>, i: int)
    requires
        0 <= i < levels.len(),
    ensures
        as_classes(levels).len() == levels.len(),
        as_classes(levels)[i].size == levels[i].size,
        as_classes(levels)[i].count == levels[i].count,
{
}

/// Without anything else said, there are six levels, from 64 bytes to 65536,
/// each four times the one before, and together they take two megabytes.
pub proof fn default_levels_grow_fourfold(i: int)
    requires
        0 <= i < 5,
    ensures
        default_table().len() == 6,
        default_table()[0].size == 64,
        default_table()[i + 1].size == 4 * default_table()[i].size,
        bytes_of(as_classes(default_table())) == 2097152,
        default_table()[0].count == 2048 && default_table()[1].count == 2048
            && default_table()[2].count == 512 && default_table()[3].count == 128
            && default_table()[4].count == 16 && default_table()[5].count == 2,
{
    let all = as_classes(default_table());
    let five = all.drop_last();
    let four = five.drop_last();
    let three = four.drop_last();
    let two = three.drop_last();
    let one = two.drop_last();
    assert(bytes_of(one.drop_last()) == 0);
    assert(bytes_of(one) == 64 * 2048);
    assert(bytes_of(two) == bytes_of(one) + 256 * 2048);
    assert(bytes_of(three) == bytes_of(two) + 1024 * 512);
    assert(bytes_of(four) == bytes_of(three) + 4096 * 128);
    assert(bytes_of(five) == bytes_of(four) + 16384 * 16);
    assert(bytes_of(all) == bytes_of(five) + 65536 * 2);
}

/// What the levels of a slab may be: 1 to 256, no two of one size, each of them
/// allowed, and no more than 4294967295 bytes together.
pub proof fn level_limits(levels: Seq<Level>, rings: bool)
    ensures
        levels_ok(levels, rings) <==> {
            &&& 1 <= levels.len() <= 256
            &&& forall|i: int, j: int|
                0 <= i < j < levels.len() ==> (#[trigger] levels[i]).size != (
                #[trigger] levels[j]).size
            &&& forall|i: int|
                0 <= i < levels.len() ==> classes::class_ok(
                    #[trigger] as_classes(levels)[i],
                    rings,
                )
            &&& bytes_of(classes::sorted(as_classes(levels))) <= 4294967295
        },
{
    let all = as_classes(levels);
    assert(forall|i: int| 0 <= i < levels.len() ==> (#[trigger] all[i]).size == levels[i].size);
    assert(forall|i: int| 0 <= i < levels.len() ==> (#[trigger] levels[i]).size == all[i].size);
}

} // verus!
