//! Sets of small indices kept as bitmaps, sixty-four indices to a word.

use vstd::prelude::*;

verus! {

/// Whether bit `i` of `word` is set.
pub open spec fn bit(word: u64, i: u64) -> bool {
    (word >> i) & 1 == 1
}

/// Whether index `i` is in the bitmap.
pub open spec fn bit_at(words: Seq<u64>, i: int) -> bool {
    0 <= i < words.len() * 64 && bit(words[i / 64], (i % 64) as u64)
}

/// The bitmap with index `i` put in or taken out.
pub open spec fn changed(before: Seq<u64>, after: Seq<u64>, i: int, value: bool) -> bool {
    &&& after.len() == before.len()
    &&& forall|j: int|
        #![trigger bit_at(after, j)]
        #![trigger bit_at(before, j)]
        bit_at(after, j) == if j == i {
            value
        } else {
            bit_at(before, j)
        }
}

proof fn lemma_set(word: u64, i: u64)
    requires
        i < 64,
    ensures
        forall|j: u64|
            j < 64 ==> #[trigger] bit(word | (1u64 << i), j) == (j == i || bit(word, j)),
{
    assert forall|j: u64| j < 64 implies #[trigger] bit(word | (1u64 << i), j) == (j == i || bit(
        word,
        j,
    )) by {
        assert((((word | (1u64 << i)) >> j) & 1 == 1) == (j == i || (word >> j) & 1 == 1))
            by (bit_vector)
            requires
                i < 64,
                j < 64,
        ;
    }
}

proof fn lemma_clear(word: u64, i: u64)
    requires
        i < 64,
    ensures
        forall|j: u64|
            j < 64 ==> #[trigger] bit(word & !(1u64 << i), j) == (j != i && bit(word, j)),
{
    assert forall|j: u64| j < 64 implies #[trigger] bit(word & !(1u64 << i), j) == (j != i && bit(
        word,
        j,
    )) by {
        assert((((word & !(1u64 << i)) >> j) & 1 == 1) == (j != i && (word >> j) & 1 == 1))
            by (bit_vector)
            requires
                i < 64,
                j < 64,
        ;
    }
}

/// `word` with bit `i` set.
pub fn with_bit(word: u64, i: u32) -> (w: u64)
    requires
        i < 64,
    ensures
        forall|j: u64| j < 64 ==> #[trigger] bit(w, j) == (j == i || bit(word, j)),
{
    proof {
        lemma_set(word, i as u64);
    }
    word | (1u64 << (i as u64))
}

/// `word` with bit `i` cleared.
pub fn without_bit(word: u64, i: u32) -> (w: u64)
    requires
        i < 64,
    ensures
        forall|j: u64| j < 64 ==> #[trigger] bit(w, j) == (j != i && bit(word, j)),
{
    proof {
        lemma_clear(word, i as u64);
    }
    word & !(1u64 << (i as u64))
}

/// Whether bit `i` of `word` is set.
pub fn has_bit(word: u64, i: u32) -> (is: bool)
    requires
        i < 64,
    ensures
        is == bit(word, i as u64),
{
    let at: u64 = i as u64;
    assert((word & (1u64 << at) != 0) == ((word >> at) & 1 == 1)) by (bit_vector)
        requires
            at < 64,
    ;
    word & (1u64 << at) != 0
}

/// Only zero has no bit set.
pub proof fn lemma_nonzero(word: u64)
    requires
        forall|j: u64| j < 64 ==> !#[trigger] bit(word, j),
    ensures
        word == 0,
{
    if word != 0 {
        vstd::std_specs::bits::axiom_u64_trailing_zeros(word);
        let i = vstd::std_specs::bits::u64_trailing_zeros(word);
        assert(bit(word, i as u64));
    }
}

/// No bit of zero is set, and every bit of the largest word is.
pub proof fn lemma_uniform()
    ensures
        forall|j: u64| j < 64 ==> !#[trigger] bit(0, j),
        forall|j: u64| j < 64 ==> #[trigger] bit(u64::MAX, j),
{
    assert forall|j: u64| j < 64 implies !#[trigger] bit(0, j) by {
        assert((0u64 >> j) & 1 == 0) by (bit_vector);
    }
    assert forall|j: u64| j < 64 implies #[trigger] bit(u64::MAX, j) by {
        assert((0xffff_ffff_ffff_ffffu64 >> j) & 1 == 1) by (bit_vector)
            requires
                j < 64,
        ;
    }
}

/// A bitmap of empty words holds nothing, one of full words everything.
pub proof fn lemma_filled(words: Seq<u64>, word: u64)
    requires
        word == 0 || word == u64::MAX,
        forall|k: int| 0 <= k < words.len() ==> words[k] == word,
    ensures
        forall|i: int|
            #![trigger bit_at(words, i)]
            bit_at(words, i) == (word == u64::MAX && 0 <= i < words.len() * 64),
{
    lemma_uniform();
}

/// Whether `index` is in the bitmap.
pub fn test(words: &Vec<u64>, index: u32) -> (is: bool)
    ensures
        is == bit_at(words@, index as int),
{
    let word: usize = index as usize / 64;
    let at: u64 = index as u64 % 64;
    if word >= words.len() {
        return false;
    }
    let w: u64 = words[word];
    assert((w & (1u64 << at) != 0) == ((w >> at) & 1 == 1)) by (bit_vector)
        requires
            at < 64,
    ;
    w & (1u64 << at) != 0
}

/// Puts `index` into the bitmap.
pub fn set(words: &mut Vec<u64>, index: u32)
    requires
        index < old(words)@.len() * 64,
    ensures
        changed(old(words)@, final(words)@, index as int, true),
{
    let word: usize = index as usize / 64;
    let at: u64 = index as u64 % 64;
    let w: u64 = words[word];
    proof {
        lemma_set(w, at);
    }
    words.set(word, w | (1u64 << at));
    assert forall|j: int|
        #![trigger bit_at(words@, j)]
        #![trigger bit_at(old(words)@, j)]
        bit_at(words@, j) == if j == index as int {
            true
        } else {
            bit_at(old(words)@, j)
        } by {
        if 0 <= j < words@.len() * 64 && j / 64 == word {
            let k = (j % 64) as u64;
            assert(bit(w | (1u64 << at), k) == (k == at || bit(w, k)));
        }
    }
}

/// Takes `index` out of the bitmap.
pub fn clear(words: &mut Vec<u64>, index: u32)
    requires
        index < old(words)@.len() * 64,
    ensures
        changed(old(words)@, final(words)@, index as int, false),
{
    let word: usize = index as usize / 64;
    let at: u64 = index as u64 % 64;
    let w: u64 = words[word];
    proof {
        lemma_clear(w, at);
    }
    words.set(word, w & !(1u64 << at));
    assert forall|j: int|
        #![trigger bit_at(words@, j)]
        #![trigger bit_at(old(words)@, j)]
        bit_at(words@, j) == if j == index as int {
            false
        } else {
            bit_at(old(words)@, j)
        } by {
        if 0 <= j < words@.len() * 64 && j / 64 == word {
            let k = (j % 64) as u64;
            assert(bit(w & !(1u64 << at), k) == (k != at && bit(w, k)));
        }
    }
}

/// The lowest set bit of a word.
pub fn lowest(word: u64) -> (i: u32)
    requires
        word != 0,
    ensures
        i < 64,
        bit(word, i as u64),
        forall|j: u64| j < i ==> !#[trigger] bit(word, j),
{
    let i: u32 = word.trailing_zeros();
    proof {
        vstd::std_specs::bits::axiom_u64_trailing_zeros(word);
        assert forall|j: u64| j < i implies !#[trigger] bit(word, j) by {
            assert((word >> j) & 1u64 == 0u64);
        }
    }
    i
}

/// The lowest index in the bitmap.
pub fn first_set(words: &Vec<u64>) -> (index: Option<u32>)
    requires
        words@.len() * 64 <= 0x1_0000_0000,
    ensures
        match index {
            Some(i) => bit_at(words@, i as int) && forall|j: int|
                j < i ==> !#[trigger] bit_at(words@, j),
            None => forall|j: int| !#[trigger] bit_at(words@, j),
        },
{
    proof {
        lemma_uniform();
    }
    let mut k: usize = 0;
    while k < words.len()
        invariant
            k <= words@.len(),
            words@.len() * 64 <= 0x1_0000_0000,
            forall|j: u64| j < 64 ==> !#[trigger] bit(0, j),
            forall|j: int| j < k * 64 ==> !#[trigger] bit_at(words@, j),
        decreases words@.len() - k,
    {
        let word: u64 = words[k];
        if word != 0 {
            let at: u32 = lowest(word);
            let index: u32 = k as u32 * 64 + at;
            assert(index / 64 == k && index % 64 == at);
            assert forall|j: int| j < index implies !#[trigger] bit_at(words@, j) by {
                if j >= k * 64 {
                    assert(j / 64 == k);
                    assert(!bit(word, (j % 64) as u64));
                }
            }
            return Some(index);
        }
        assert forall|j: int| j < (k + 1) * 64 implies !#[trigger] bit_at(words@, j) by {
            if j >= k * 64 {
                assert(j / 64 == k);
                assert(!bit(0, (j % 64) as u64));
            }
        }
        k = k + 1;
    }
    None
}

/// The lowest index that is not in the bitmap. Past its last word nothing is.
pub fn first_clear(words: &Vec<u64>) -> (index: u32)
    requires
        words@.len() * 64 < 0x1_0000_0000,
    ensures
        index <= words@.len() * 64,
        !bit_at(words@, index as int),
        forall|j: int| 0 <= j < index ==> #[trigger] bit_at(words@, j),
{
    proof {
        lemma_uniform();
    }
    let mut k: usize = 0;
    while k < words.len()
        invariant
            k <= words@.len(),
            words@.len() * 64 < 0x1_0000_0000,
            forall|j: u64| j < 64 ==> #[trigger] bit(u64::MAX, j),
            forall|j: int| 0 <= j < k * 64 ==> #[trigger] bit_at(words@, j),
        decreases words@.len() - k,
    {
        let word: u64 = words[k];
        if word != u64::MAX {
            let gaps: u64 = !word;
            assert(gaps != 0) by (bit_vector)
                requires
                    gaps == !word,
                    word != 0xffff_ffff_ffff_ffff,
            ;
            let at: u32 = lowest(gaps);
            let index: u32 = k as u32 * 64 + at;
            assert(index / 64 == k && index % 64 == at);
            assert forall|j: u64| j < 64 implies #[trigger] bit(gaps, j) == !bit(word, j) by {
                assert(((!word >> j) & 1 == 1) == !((word >> j) & 1 == 1)) by (bit_vector)
                    requires
                        j < 64,
                ;
            }
            assert(bit(gaps, at as u64));
            assert forall|j: int| 0 <= j < index implies #[trigger] bit_at(words@, j) by {
                if j >= k * 64 {
                    assert(j / 64 == k);
                    assert(!bit(gaps, (j % 64) as u64));
                }
            }
            return index;
        }
        assert forall|j: int| 0 <= j < (k + 1) * 64 implies #[trigger] bit_at(words@, j) by {
            if j >= k * 64 {
                assert(j / 64 == k);
                assert(bit(u64::MAX, (j % 64) as u64));
            }
        }
        k = k + 1;
    }
    words.len() as u32 * 64
}

/// Index `i` of a bitmap is bit `i % 64`, from the lowest on, of word `i / 64`.
pub proof fn bitmap_layout(words: Seq<u64>, k: int, j: u64, i: u64)
    requires
        0 <= k < words.len(),
        j < 64,
        i < 64,
    ensures
        bit_at(words, 64 * k + j) == bit(words[k], j),
        bit(1u64 << i, j) <==> i == j,
        !bit_at(words, -1),
        !bit_at(words, 64 * words.len() as int),
{
    assert(((1u64 << i) >> j) & 1 == 1 <==> i == j) by (bit_vector)
        requires
            i < 64,
            j < 64,
    ;
    assert((64 * k + j) / 64 == k && (64 * k + j) % 64 == j);
}

/// A bitmap after an index was put in, or taken out, differs in that index
/// alone.
pub proof fn change_concerns_one_index(
    before: Seq<u64>,
    after: Seq<u64>,
    i: int,
    value: bool,
    j: int,
)
    requires
        changed(before, after, i, value),
    ensures
        bit_at(after, i) == value,
        j != i ==> bit_at(after, j) == bit_at(before, j),
        after.len() == before.len(),
{
}

} // verus!
