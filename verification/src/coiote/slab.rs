//! A slab of values that grows as needed. Indices that were freed are taken
//! again, the last one first; then the lowest one that was never taken.

use vstd::prelude::*;

use crate::coio::bits;

verus! {

/// Values, which indices are occupied, and which were freed.
pub struct Slab<T> {
    slots: Vec<Option<T>>,
    occupied: Vec<u64>,
    free: Vec<u32>,
}

/// The number of slots after room was made for `min`.
pub open spec fn grown(len: int, min: int) -> int {
    let double = 2 * if len < 8 {
        8
    } else {
        len
    };
    if min < double {
        double
    } else {
        min
    }
}

/// How far a bitmap reaches that reached up to `room` and must cover `n`
/// indices.
pub open spec fn covering(room: int, n: int) -> int {
    if (n + 63) / 64 * 64 > room {
        (n + 63) / 64 * 64
    } else {
        room
    }
}

impl<T> Slab<T> {
    pub closed spec fn values(&self) -> Seq<Option<T>> {
        self.slots@
    }

    /// Whether index `i` is occupied.
    pub closed spec fn has(&self, i: int) -> bool {
        bits::bit_at(self.occupied@, i)
    }

    /// The indices that were freed; the last is taken first.
    pub closed spec fn freed(&self) -> Seq<u32> {
        self.free@
    }

    /// How many indices the bitmap covers.
    pub closed spec fn room(&self) -> int {
        self.occupied@.len() as int * 64
    }

    /// An occupied index has a value.
    pub open spec fn wf(&self) -> bool {
        forall|i: int|
            #[trigger]
            self.has(i) ==> 0 <= i < self.values().len() && self.values()[i] is Some
    }

    /// The index that the next value gets.
    pub open spec fn next_is(&self, index: u32) -> bool {
        if self.freed().len() > 0 {
            index == self.freed().last()
        } else {
            &&& !self.has(index as int)
            &&& forall|j: int| 0 <= j < index ==> #[trigger] self.has(j)
        }
    }

    pub fn new() -> (slab: Self)
        ensures
            slab.wf(),
            slab.values() == Seq::<Option<T>>::empty(),
            slab.freed() == Seq::<u32>::empty(),
            slab.room() == 0,
            forall|i: int| !#[trigger] slab.has(i),
    {
        Slab { slots: Vec::new(), occupied: Vec::new(), free: Vec::new() }
    }

    /// Marks `index` as occupied or not.
    fn set_occupied(&mut self, index: u32, taken: bool)
        ensures
            final(self).slots == old(self).slots,
            final(self).free == old(self).free,
            final(self).room() == covering(old(self).room(), index + 1),
            forall|j: int|
                #![trigger final(self).has(j)]
                #![trigger old(self).has(j)]
                final(self).has(j) == if j == index {
                    taken
                } else {
                    old(self).has(j)
                },
    {
        let word: usize = index as usize / 64;
        self.cover(word + 1);
        let ghost mid = self.occupied@;
        if taken {
            bits::set(&mut self.occupied, index);
        } else {
            bits::clear(&mut self.occupied, index);
        }
        assert forall|j: int|
            #![trigger self.has(j)]
            #![trigger old(self).has(j)]
            self.has(j) == if j == index as int {
                taken
            } else {
                old(self).has(j)
            } by {
            assert(bits::bit_at(mid, j) == bits::bit_at(old(self).occupied@, j));
            assert(bits::bit_at(self.occupied@, j) == if j == index as int {
                taken
            } else {
                bits::bit_at(mid, j)
            });
        }
    }

    /// Extends the bitmap to at least `words`.
    fn cover(&mut self, words: usize)
        ensures
            final(self).slots == old(self).slots,
            final(self).free == old(self).free,
            final(self).occupied@.len() == if words > old(self).occupied@.len() {
                words as int
            } else {
                old(self).occupied@.len() as int
            },
            forall|j: int|
                #![trigger bits::bit_at(final(self).occupied@, j)]
                #![trigger bits::bit_at(old(self).occupied@, j)]
                bits::bit_at(final(self).occupied@, j) == bits::bit_at(old(self).occupied@, j),
    {
        let ghost before = self.occupied@;
        proof {
            bits::lemma_uniform();
        }
        while self.occupied.len() < words
            invariant
                before == old(self).occupied@,
                self.slots == old(self).slots,
                self.free == old(self).free,
                self.occupied@.len() >= before.len(),
                self.occupied@.len() <= words || self.occupied@.len() == before.len(),
                forall|j: u64| j < 64 ==> !#[trigger] bits::bit(0, j),
                forall|j: int|
                    #![trigger bits::bit_at(self.occupied@, j)]
                    #![trigger bits::bit_at(before, j)]
                    bits::bit_at(self.occupied@, j) == bits::bit_at(before, j),
            decreases words - self.occupied@.len(),
        {
            let ghost now = self.occupied@;
            self.occupied.push(0);
            assert forall|j: int|
                #![trigger bits::bit_at(self.occupied@, j)]
                #![trigger bits::bit_at(before, j)]
                bits::bit_at(self.occupied@, j) == bits::bit_at(before, j) by {
                assert(bits::bit_at(now, j) == bits::bit_at(before, j));
                if 0 <= j < self.occupied@.len() * 64 {
                    if j / 64 == now.len() {
                        assert(!bits::bit(0, (j % 64) as u64));
                    } else {
                        assert(self.occupied@[j / 64] == now[j / 64]);
                    }
                }
            }
        }
    }

    /// Makes room for at least `min` slots.
    fn grow(&mut self, min: usize)
        requires
            grown(old(self).slots@.len() as int, min as int) + 63 <= usize::MAX,
        ensures
            final(self).free == old(self).free,
            final(self).slots@.len() == grown(old(self).slots@.len() as int, min as int),
            final(self).room() == covering(
                old(self).room(),
                grown(old(self).slots@.len() as int, min as int),
            ),
            forall|i: int|
                0 <= i < final(self).slots@.len() ==> #[trigger] final(self).slots@[i] == if i
                    < old(self).slots@.len() {
                    old(self).slots@[i]
                } else {
                    None
                },
            forall|j: int|
                #![trigger final(self).has(j)]
                #![trigger old(self).has(j)]
                final(self).has(j) == old(self).has(j),
    {
        let len: usize = self.slots.len();
        let floor: usize = if len < 8 {
            8
        } else {
            len
        };
        let double: usize = floor * 2;
        let n: usize = if min < double {
            double
        } else {
            min
        };
        while self.slots.len() < n
            invariant
                n >= old(self).slots@.len(),
                n == grown(old(self).slots@.len() as int, min as int),
                self.free == old(self).free,
                self.occupied == old(self).occupied,
                old(self).slots@.len() <= self.slots@.len() <= n,
                forall|i: int|
                    0 <= i < self.slots@.len() ==> #[trigger] self.slots@[i] == if i < old(
                        self,
                    ).slots@.len() {
                        old(self).slots@[i]
                    } else {
                        None
                    },
            decreases n - self.slots@.len(),
        {
            self.slots.push(None);
        }
        self.cover((n + 63) / 64);
        assert forall|j: int|
            #![trigger self.has(j)]
            #![trigger old(self).has(j)]
            self.has(j) == old(self).has(j) by {
            assert(bits::bit_at(self.occupied@, j) == bits::bit_at(old(self).occupied@, j));
        }
    }

    /// Puts `value` at `index`, in place of any value there.
    pub fn insert_at(&mut self, index: u32, value: T)
        requires
            old(self).wf(),
            grown(old(self).values().len() as int, index + 1) + 63 <= usize::MAX,
        ensures
            final(self).wf(),
            final(self).freed() == old(self).freed(),
            final(self).values().len() == if index >= old(self).values().len() {
                grown(old(self).values().len() as int, index + 1)
            } else {
                old(self).values().len() as int
            },
            forall|i: int|
                0 <= i < final(self).values().len() ==> #[trigger] final(self).values()[i] == if i
                    == index {
                    Some(value)
                } else if i < old(self).values().len() {
                    old(self).values()[i]
                } else {
                    None
                },
            forall|j: int|
                #![trigger final(self).has(j)]
                #![trigger old(self).has(j)]
                final(self).has(j) == (j == index || old(self).has(j)),
            final(self).room() == covering(
                old(self).room(),
                if index >= old(self).values().len() {
                    grown(old(self).values().len() as int, index + 1)
                } else {
                    index + 1
                },
            ),
    {
        if index as usize >= self.slots.len() {
            self.grow(index as usize + 1);
        }
        let ghost mid = *self;
        self.set_occupied(index, true);
        self.slots.set(index as usize, Some(value));
        proof {
            assert forall|j: int|
                #![trigger self.has(j)]
                #![trigger old(self).has(j)]
                self.has(j) == (j == index || old(self).has(j)) by {
                assert(mid.has(j) == old(self).has(j));
            }
            assert forall|i: int| #[trigger] self.has(i) implies 0 <= i < self.values().len()
                && self.values()[i] is Some by {
                if i != index {
                    assert(old(self).has(i));
                }
            }
        }
    }

    /// Puts `value` at the next index.
    pub fn insert(&mut self, value: T) -> (index: Option<u32>)
        requires
            old(self).wf(),
            old(self).room() < 0x1_0000_0000,
            forall|i: u32|
                #[trigger]
                old(self).next_is(i) ==> grown(old(self).values().len() as int, i + 1) + 63
                    <= usize::MAX,
        ensures
            final(self).wf(),
            index matches Some(n) && {
                &&& old(self).next_is(n)
                &&& final(self).freed() == if old(self).freed().len() > 0 {
                    old(self).freed().drop_last()
                } else {
                    old(self).freed()
                }
                &&& forall|i: int|
                    0 <= i < final(self).values().len() ==> #[trigger] final(self).values()[i]
                        == if i == n {
                        Some(value)
                    } else if i < old(self).values().len() {
                        old(self).values()[i]
                    } else {
                        None
                    }
                &&& forall|j: int|
                    #![trigger final(self).has(j)]
                    #![trigger old(self).has(j)]
                    final(self).has(j) == (j == n || old(self).has(j))
                &&& final(self).values().len() == if n >= old(self).values().len() {
                    grown(old(self).values().len() as int, n + 1)
                } else {
                    old(self).values().len() as int
                }
                &&& final(self).room() == covering(
                    old(self).room(),
                    if n >= old(self).values().len() {
                        grown(old(self).values().len() as int, n + 1)
                    } else {
                        n + 1
                    },
                )
            },
    {
        let index: u32;
        if self.free.len() > 0 {
            index = self.free.pop().unwrap();
        } else {
            index = bits::first_clear(&self.occupied);
            assert forall|j: int| 0 <= j < index implies #[trigger] self.has(j) by {
                assert(bits::bit_at(self.occupied@, j));
            }
        }
        assert(old(self).next_is(index));
        assert forall|j: int|
            #![trigger self.has(j)]
            #![trigger old(self).has(j)]
            self.has(j) == old(self).has(j) by {}
        self.insert_at(index, value);
        Some(index)
    }

    /// Takes the value at `index`, which becomes free.
    pub fn remove(&mut self, index: u32) -> (value: T)
        requires
            old(self).wf(),
            index < old(self).values().len(),
            old(self).values()[index as int] is Some,
        ensures
            final(self).wf(),
            Some(value) == old(self).values()[index as int],
            final(self).values() == old(self).values().update(index as int, None),
            final(self).freed() == old(self).freed().push(index),
            forall|j: int|
                #![trigger final(self).has(j)]
                #![trigger old(self).has(j)]
                final(self).has(j) == (j != index && old(self).has(j)),
            final(self).room() == covering(old(self).room(), index + 1),
    {
        self.set_occupied(index, false);
        self.free.push(index);
        let value: Option<T> = self.slots[index as usize].take();
        proof {
            assert(self.values() =~= old(self).values().update(index as int, None));
            assert forall|i: int| #[trigger] self.has(i) implies 0 <= i < self.values().len()
                && self.values()[i] is Some by {
                assert(old(self).has(i));
            }
        }
        value.unwrap()
    }

    /// Whether `index` is occupied.
    pub fn contains(&self, index: u32) -> (taken: bool)
        ensures
            taken == self.has(index as int),
    {
        bits::test(&self.occupied, index)
    }
}

/// Room is made for as many slots as are needed, at least doubling what was
/// there, and never for fewer than sixteen.
pub proof fn growth_at_least_doubles(len: int, min: int)
    requires
        0 <= len,
    ensures
        grown(len, min) >= min,
        grown(len, min) >= 2 * len,
        grown(len, min) >= 16,
        grown(len, min) == min || grown(len, min) == 2 * len || grown(len, min) == 16,
{
}

/// A bitmap that must cover more grows by whole words, no more than needed, and
/// never shrinks.
pub proof fn coverage_grows_by_words(room: int, n: int)
    requires
        0 <= n,
        0 <= room,
        room % 64 == 0,
    ensures
        covering(room, n) >= n,
        covering(room, n) >= room,
        covering(room, n) % 64 == 0,
        covering(room, n) > room ==> covering(room, n) < n + 64,
{
}

/// The index freed last is taken first; without one, the lowest that is not
/// occupied.
pub proof fn freed_index_is_taken_first<T>(slab: Slab<T>, index: u32, other: u32)
    requires
        slab.next_is(index),
    ensures
        slab.freed().len() > 0 ==> index == slab.freed()[slab.freed().len() - 1],
        slab.freed().len() == 0 && !slab.has(other as int) ==> index <= other,
        slab.freed().len() == 0 ==> !slab.has(index as int),
{
    if slab.freed().len() == 0 && !slab.has(other as int) && other < index {
        assert(slab.has(other as int));
    }
}

} // verus!
