//! A slab of values addressed by small indices. The first sixty-four free
//! indices are kept in a bitmap, later ones in a list.

use vstd::prelude::*;

use crate::coio::bits;

verus! {

/// Values, and which indices are free.
pub struct Slab<T> {
    slots: Vec<Option<T>>,
    inline_free: u64,
    free: Vec<u32>,
}

/// `s` with every `x` taken out.
pub open spec fn without(s: Seq<u32>, x: u32) -> Seq<u32>
    decreases s.len(),
{
    if s.len() == 0 {
        s
    } else if s.last() == x {
        without(s.drop_last(), x)
    } else {
        without(s.drop_last(), x).push(s.last())
    }
}

proof fn lemma_without(s: Seq<u32>, x: u32)
    ensures
        forall|i: u32|
            #![trigger without(s, x).contains(i)]
            #![trigger s.contains(i)]
            without(s, x).contains(i) <==> s.contains(i) && i != x,
        s.no_duplicates() ==> without(s, x).no_duplicates(),
        !s.contains(x) ==> without(s, x) == s,
    decreases s.len(),
{
    if s.len() > 0 {
        let init = s.drop_last();
        let kept = without(init, x);
        let all = without(s, x);
        lemma_without(init, x);
        assert forall|i: u32| #![trigger s.contains(i)] s.contains(i) <==> init.contains(i) || i
            == s.last() by {
            if s.contains(i) {
                let k = s.index_of(i);
                if k < init.len() {
                    assert(init[k] == i);
                }
            }
            if init.contains(i) {
                assert(s[init.index_of(i)] == i);
            }
            assert(s[s.len() - 1] == s.last());
        }
        if s.last() != x {
            assert forall|i: u32| #![trigger all.contains(i)] all.contains(i) <==> kept.contains(i)
                || i == s.last() by {
                if all.contains(i) {
                    let k = all.index_of(i);
                    if k < kept.len() {
                        assert(kept[k] == i);
                    }
                }
                if kept.contains(i) {
                    assert(all[kept.index_of(i)] == i);
                }
                assert(all[kept.len() as int] == s.last());
            }
            if s.no_duplicates() {
                assert(!init.contains(s.last())) by {
                    if init.contains(s.last()) {
                        assert(s[init.index_of(s.last())] == s[s.len() - 1]);
                    }
                }
                assert(!kept.contains(s.last()));
                assert forall|a: int, b: int|
                    0 <= a < all.len() && 0 <= b < all.len() && a != b implies all[a] != all[b] by {
                    if a < kept.len() {
                        assert(kept.contains(kept[a]));
                    }
                    if b < kept.len() {
                        assert(kept.contains(kept[b]));
                    }
                }
            }
        }
        if !s.contains(x) {
            assert(s.contains(s.last()));
            assert(!init.contains(x));
            assert(all =~= s);
        }
    }
}

/// A call that changes a slab, with the index that it changed.
pub enum SlabCall {
    /// A value was inserted.
    Put { at: u32 },
    /// A value was removed.
    Taken { at: u32 },
}

/// Whether index `i` was inserted in these calls and not removed since.
pub open spec fn put_last(calls: Seq<SlabCall>, i: int) -> bool
    decreases calls.len(),
{
    if calls.len() == 0 {
        false
    } else {
        match calls.last() {
            SlabCall::Put { at } => at == i || put_last(calls.drop_last(), i),
            SlabCall::Taken { at } => at != i && put_last(calls.drop_last(), i),
        }
    }
}

impl<T> Slab<T> {
    /// The values, by index.
    pub closed spec fn values(&self) -> Seq<Option<T>> {
        self.slots@
    }

    /// Whether index `i`, below sixty-four, is free.
    pub closed spec fn small_free(&self, i: int) -> bool {
        bits::bit(self.inline_free, i as u64)
    }

    /// The free indices from sixty-four on. The one freed last is taken first.
    pub closed spec fn large_free(&self) -> Seq<u32> {
        self.free@
    }

    /// An index below sixty-four is free exactly when it has no value, and the
    /// listed ones have none either.
    pub open spec fn wf(&self) -> bool {
        &&& self.values().len() <= u32::MAX
        &&& forall|i: int|
            0 <= i < 64 ==> (#[trigger] self.small_free(i) <==> (i >= self.values().len()
                || self.values()[i] is None))
        &&& self.large_free().no_duplicates()
        &&& forall|k: int|
            0 <= k < self.large_free().len() ==> {
                let i = #[trigger] self.large_free()[k];
                64 <= i < self.values().len() && self.values()[i as int] is None
            }
    }

    /// Whether index `i` counts as free: below sixty-four when it has no
    /// value, beyond only when it had one that was removed.
    pub open spec fn is_free_at(&self, i: int) -> bool {
        if i < 64 {
            self.small_free(i)
        } else {
            self.large_free().contains(i as u32)
        }
    }

    /// The index that the next value gets: the lowest free one below
    /// sixty-four, else the one freed last, else a new one.
    pub open spec fn next_is(&self, index: u32) -> bool {
        if exists|i: int| 0 <= i < 64 && #[trigger] self.small_free(i) {
            &&& index < 64
            &&& self.small_free(index as int)
            &&& forall|i: int| 0 <= i < index ==> !#[trigger] self.small_free(i)
        } else if self.large_free().len() > 0 {
            index == self.large_free().last()
        } else {
            index == self.values().len()
        }
    }

    /// What a call does to the values.
    pub open spec fn stepped(&self, call: SlabCall, after: &Self) -> bool {
        let old = self.values();
        let new = after.values();
        match call {
            SlabCall::Put { at } => {
                &&& at < new.len()
                &&& old.len() <= new.len()
                &&& new[at as int] is Some
                &&& forall|j: int|
                    0 <= j < new.len() && j != at ==> #[trigger] new[j] == if j < old.len() {
                        old[j]
                    } else {
                        None
                    }
            },
            SlabCall::Taken { at } => {
                &&& at < old.len()
                &&& old[at as int] is Some
                &&& new == old.update(at as int, None)
            },
        }
    }

    /// The next value does not take the place of another.
    pub proof fn next_index_has_no_value(&self, index: u32)
        requires
            self.wf(),
            self.next_is(index),
        ensures
            index < self.values().len() ==> self.values()[index as int] is None,
    {
        if exists|i: int| 0 <= i < 64 && #[trigger] self.small_free(i) {
        } else if self.large_free().len() > 0 {
            assert(self.large_free()[self.large_free().len() - 1] == index);
        }
    }

    /// An empty slab.
    pub fn new() -> (slab: Self)
        ensures
            slab.wf(),
            slab.values() == Seq::<Option<T>>::empty(),
            slab.large_free() == Seq::<u32>::empty(),
    {
        proof {
            bits::lemma_uniform();
        }
        Slab { slots: Vec::new(), inline_free: u64::MAX, free: Vec::new() }
    }

    pub fn slot_count(&self) -> (n: usize)
        ensures
            n == self.values().len(),
    {
        self.slots.len()
    }

    /// The bitmap of free indices.
    pub fn inline_free(&self) -> (word: u64)
        ensures
            forall|i: int|
                0 <= i < 64 ==> bits::bit(word, i as u64) == #[trigger] self.small_free(i),
            word == 0 <==> (forall|i: int| 0 <= i < 64 ==> !#[trigger] self.small_free(i)),
    {
        proof {
            bits::lemma_uniform();
            if forall|i: int| 0 <= i < 64 ==> !#[trigger] self.small_free(i) {
                assert forall|j: u64| j < 64 implies !#[trigger] bits::bit(
                    self.inline_free,
                    j,
                ) by {
                    assert(!self.small_free(j as int));
                }
                bits::lemma_nonzero(self.inline_free);
            }
        }
        self.inline_free
    }

    /// The list of free indices.
    pub fn free_list(&self) -> (free: &Vec<u32>)
        ensures
            free@ == self.large_free(),
    {
        &self.free
    }

    /// Grows the slots to `n`.
    fn grow_to(&mut self, n: usize)
        ensures
            final(self).inline_free == old(self).inline_free,
            final(self).free == old(self).free,
            final(self).slots@.len() == if n > old(self).slots@.len() {
                n as int
            } else {
                old(self).slots@.len() as int
            },
            forall|i: int|
                0 <= i < final(self).slots@.len() ==> #[trigger] final(self).slots@[i] == if i
                    < old(self).slots@.len() {
                    old(self).slots@[i]
                } else {
                    None
                },
    {
        while self.slots.len() < n
            invariant
                self.inline_free == old(self).inline_free,
                self.free == old(self).free,
                self.slots@.len() >= old(self).slots@.len(),
                self.slots@.len() <= n || self.slots@.len() == old(self).slots@.len(),
                forall|i: int|
                    0 <= i < self.slots@.len() ==> #[trigger] self.slots@[i] == if i < old(
                        self,
                    ).slots@.len() {
                        old(self).slots@[i]
                    } else {
                        None
                    },
            decreases n - self.slots@.len(),
        {
            self.slots.push(None);
        }
    }

    /// Puts `value` at the next index.
    pub fn insert(&mut self, value: T) -> (index: Option<u32>)
        requires
            old(self).wf(),
            old(self).values().len() < u32::MAX,
        ensures
            final(self).wf(),
            index matches Some(i) && {
                &&& old(self).next_is(i)
                &&& i < final(self).values().len()
                &&& final(self).values().len() == if i >= old(self).values().len() {
                    i + 1
                } else {
                    old(self).values().len() as int
                }
                &&& final(self).values()[i as int] == Some(value)
                &&& forall|j: int|
                    0 <= j < final(self).values().len() && j != i
                        ==> #[trigger] final(self).values()[j] == if j < old(self).values().len() {
                        old(self).values()[j]
                    } else {
                        None
                    }
                &&& old(self).stepped(SlabCall::Put { at: i }, &*final(self))
                &&& !final(self).is_free_at(i as int)
                &&& final(self).large_free() == if i < 64 {
                    old(self).large_free()
                } else {
                    without(old(self).large_free(), i)
                }
            },
    {
        let index: u32;
        if self.inline_free != 0 {
            index = bits::lowest(self.inline_free);
            proof {
                assert(self.small_free(index as int));
                assert forall|i: int| 0 <= i < index implies !#[trigger] self.small_free(i) by {
                    assert(!bits::bit(self.inline_free, i as u64));
                }
            }
            self.inline_free = bits::without_bit(self.inline_free, index);
        } else {
            proof {
                bits::lemma_uniform();
                assert forall|i: int| 0 <= i < 64 implies !#[trigger] self.small_free(i) by {
                    assert(!bits::bit(0, i as u64));
                }
                assert(!self.small_free(63));
            }
            if self.free.len() > 0 {
                index = self.free.pop().unwrap();
                proof {
                    let n = old(self).free@.len() - 1;
                    assert(old(self).free@[n] == index);
                    assert forall|k: int| 0 <= k < self.free@.len() implies (
                    #[trigger] self.free@[k]) != index by {
                        assert(old(self).free@[k] != old(self).free@[n]);
                    }
                }
            } else {
                index = self.slots.len() as u32;
            }
        }
        if index as usize >= self.slots.len() {
            self.grow_to(index as usize + 1);
        }
        self.slots.set(index as usize, Some(value));
        proof {
            assert forall|i: int| 0 <= i < 64 implies (#[trigger] self.small_free(i) <==> (i
                >= self.values().len() || self.values()[i] is None)) by {
                assert(old(self).small_free(i) <==> (i >= old(self).values().len() || old(
                    self,
                ).values()[i] is None));
                assert(bits::bit(self.inline_free, i as u64) == (bits::bit(
                    old(self).inline_free,
                    i as u64,
                ) && i != index));
            }
            assert forall|k: int| 0 <= k < self.large_free().len() implies {
                let i = #[trigger] self.large_free()[k];
                64 <= i < self.values().len() && self.values()[i as int] is None
            } by {
                assert(self.free@[k] == old(self).free@[k]);
            }
        }
        proof {
            let before = old(self).large_free();
            lemma_without(before, index);
            if index >= 64 && before.len() > 0 {
                lemma_without(before.drop_last(), index);
                assert(before.last() == index);
                if before.drop_last().contains(index) {
                    let k = before.drop_last().index_of(index);
                    assert(before[k] == before[before.len() - 1]);
                }
                assert(self.large_free() =~= before.drop_last());
            } else {
                assert(self.large_free() =~= before);
            }
        }
        Some(index)
    }

    /// Puts `value` at `index`, in place of any value there.
    pub fn insert_at(&mut self, index: u32, value: T)
        requires
            old(self).wf(),
            index < u32::MAX,
        ensures
            final(self).wf(),
            final(self).values().len() == if index >= old(self).values().len() {
                index + 1
            } else {
                old(self).values().len() as int
            },
            final(self).values()[index as int] == Some(value),
            forall|j: int|
                0 <= j < final(self).values().len() && j != index
                    ==> #[trigger] final(self).values()[j] == if j < old(self).values().len() {
                    old(self).values()[j]
                } else {
                    None
                },
            final(self).large_free() == without(old(self).large_free(), index),
            old(self).stepped((SlabCall::Put { at: index }), &*final(self)),
    {
        if index as usize >= self.slots.len() {
            self.grow_to(index as usize + 1);
        }
        let ghost word = self.inline_free;
        let ghost list = self.free@;
        if index < 64 {
            self.inline_free = bits::without_bit(self.inline_free, index);
        } else {
            self.unlist(index);
        }
        self.slots.set(index as usize, Some(value));
        proof {
            lemma_without(old(self).free@, index);
            if index < 64 && old(self).free@.contains(index) {
                let k = old(self).free@.index_of(index);
                assert(old(self).large_free()[k] == index);
            }
            assert forall|i: int| 0 <= i < 64 implies (#[trigger] self.small_free(i) <==> (i
                >= self.values().len() || self.values()[i] is None)) by {
                assert(old(self).small_free(i) <==> (i >= old(self).values().len() || old(
                    self,
                ).values()[i] is None));
                if index < 64 {
                    assert(bits::bit(self.inline_free, i as u64) == (bits::bit(word, i as u64) && i
                        != index));
                }
            }
            assert forall|k: int| 0 <= k < self.large_free().len() implies {
                let i = #[trigger] self.large_free()[k];
                64 <= i < self.values().len() && self.values()[i as int] is None
            } by {
                let i = self.free@[k];
                assert(self.free@.contains(i));
                assert(old(self).free@.contains(i));
                let m = old(self).free@.index_of(i);
                assert(old(self).large_free()[m] == i);
            }
        }
    }

    /// Takes `index` off the list of free indices.
    fn unlist(&mut self, index: u32)
        ensures
            final(self).slots == old(self).slots,
            final(self).inline_free == old(self).inline_free,
            final(self).free@ == without(old(self).free@, index),
    {
        let ghost all = self.free@;
        let mut kept: Vec<u32> = Vec::new();
        let mut k: usize = 0;
        assert(all.take(0) =~= Seq::<u32>::empty());
        while k < self.free.len()
            invariant
                self.slots == old(self).slots,
                self.inline_free == old(self).inline_free,
                self.free@ == all,
                k <= all.len(),
                kept@ == without(all.take(k as int), index),
            decreases all.len() - k,
        {
            assert(all.take(k + 1).drop_last() =~= all.take(k as int));
            if self.free[k] != index {
                kept.push(self.free[k]);
            }
            k = k + 1;
        }
        assert(all.take(k as int) =~= all);
        self.free = kept;
    }

    /// Takes the value at `index`, which becomes free.
    pub fn remove(&mut self, index: u32) -> (value: T)
        requires
            old(self).wf(),
            index < old(self).values().len(),
            old(self).values()[index as int] is Some,
        ensures
            final(self).wf(),
            Some(value) == old(self).values()[index as int],
            final(self).values() == old(self).values().update(index as int, None),
            old(self).stepped((SlabCall::Taken { at: index }), &*final(self)),
            final(self).is_free_at(index as int),
            final(self).large_free() == if index < 64 {
                old(self).large_free()
            } else {
                old(self).large_free().push(index)
            },
    {
        let value: Option<T> = self.slots[index as usize].take();
        if index < 64 {
            self.inline_free = bits::with_bit(self.inline_free, index);
        } else {
            self.free.push(index);
        }
        proof {
            assert(self.values() =~= old(self).values().update(index as int, None));
            assert forall|i: int| 0 <= i < 64 implies (#[trigger] self.small_free(i) <==> (i
                >= self.values().len() || self.values()[i] is None)) by {
                assert(old(self).small_free(i) <==> (i >= old(self).values().len() || old(
                    self,
                ).values()[i] is None));
                if index < 64 {
                    assert(bits::bit(self.inline_free, i as u64) == (bits::bit(
                        old(self).inline_free,
                        i as u64,
                    ) || i == index));
                }
            }
            let before = old(self).free@;
            assert forall|k: int| 0 <= k < self.large_free().len() implies {
                let i = #[trigger] self.large_free()[k];
                64 <= i < self.values().len() && self.values()[i as int] is None
            } by {
                if k < before.len() {
                    assert(old(self).large_free()[k] == self.free@[k]);
                }
            }
            if index >= 64 {
                assert(self.free@[before.len() as int] == index);
                assert(self.free@.no_duplicates()) by {
                    assert forall|a: int, b: int|
                        0 <= a < self.free@.len() && 0 <= b < self.free@.len() && a
                            != b implies self.free@[a] != self.free@[b] by {
                        if a < before.len() {
                            assert(old(self).values()[old(self).large_free()[a] as int] is None);
                        }
                        if b < before.len() {
                            assert(old(self).values()[old(self).large_free()[b] as int] is None);
                        }
                    }
                }
            }
        }
        value.unwrap()
    }

    /// Whether `index` is taken. An index from sixty-four on counts as taken
    /// until a value was removed from it.
    pub fn contains(&self, index: u32) -> (taken: bool)
        ensures
            taken == !self.is_free_at(index as int),
    {
        if index < 64 {
            return !bits::has_bit(self.inline_free, index);
        }
        let mut k: usize = 0;
        while k < self.free.len()
            invariant
                index >= 64,
                k <= self.free@.len(),
                forall|m: int| 0 <= m < k ==> self.free@[m] != index,
            decreases self.free@.len() - k,
        {
            if self.free[k] == index {
                assert(self.free@.contains(index));
                return false;
            }
            k = k + 1;
        }
        true
    }
}

/// Over any history of calls on a new slab, an index below sixty-four is taken
/// exactly when it was inserted and not removed since.
pub proof fn taken_means_inserted<T>(states: Seq<Slab<T>>, calls: Seq<SlabCall>, i: int)
    requires
        states.len() == calls.len() + 1,
        states[0].values() == Seq::<Option<T>>::empty(),
        forall|k: int| 0 <= k < states.len() ==> (#[trigger] states[k]).wf(),
        forall|k: int|
            0 <= k < calls.len() ==> states[k].stepped(#[trigger] calls[k], &states[k + 1]),
        0 <= i < 64,
    ensures
        !states.last().is_free_at(i) <==> put_last(calls, i),
    decreases calls.len(),
{
    let n = calls.len() as int;
    assert(states[n].wf());
    if n > 0 {
        let before = states.drop_last();
        let earlier = calls.drop_last();
        assert forall|k: int| 0 <= k < before.len() implies (#[trigger] before[k]).wf() by {
            assert(states[k].wf());
        }
        assert forall|k: int| 0 <= k < earlier.len() implies before[k].stepped(
            #[trigger] earlier[k],
            &before[k + 1],
        ) by {
            assert(states[k].stepped(calls[k], &states[k + 1]));
        }
        taken_means_inserted(before, earlier, i);
        assert(states[n - 1].stepped(calls[n - 1], &states[n]));
        assert(states[n - 1].wf());
        assert(before.last() == states[n - 1]);
        assert(states[n].small_free(i) <==> (i >= states[n].values().len()
            || states[n].values()[i] is None));
        assert(states[n - 1].small_free(i) <==> (i >= states[n - 1].values().len()
            || states[n - 1].values()[i] is None));
    } else {
        assert(states[0].small_free(i));
    }
}

impl<T> Default for Slab<T> {
    fn default() -> (slab: Self)
        ensures
            slab.wf(),
            slab.values() == Seq::<Option<T>>::empty(),
            slab.large_free() == Seq::<u32>::empty(),
    {
        Slab::new()
    }
}

/// A value goes to the lowest free index below sixty-four while there is one,
/// then to the index freed last, then to a new one.
pub proof fn low_indices_go_first<T>(slab: Slab<T>, index: u32, i: int)
    requires
        slab.next_is(index),
    ensures
        0 <= i < 64 && slab.small_free(i) ==> index <= i && slab.small_free(index as int),
        (forall|j: int| 0 <= j < 64 ==> !#[trigger] slab.small_free(j)) ==> if slab.large_free().len()
            > 0 {
            index == slab.large_free()[slab.large_free().len() - 1]
        } else {
            index == slab.values().len()
        },
{
}

/// An index is free below sixty-four by its bit, and beyond by the list.
pub proof fn free_indices_are_known<T>(slab: Slab<T>, i: u32)
    ensures
        i < 64 ==> slab.is_free_at(i as int) == slab.small_free(i as int),
        i >= 64 ==> slab.is_free_at(i as int) == slab.large_free().contains(i),
{
}

} // verus!
