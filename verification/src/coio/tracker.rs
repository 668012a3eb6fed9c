//! Borrow counts of buffer slots.
//!
//! A slot's count is zero while it is free, positive while shared views hold
//! it and negative while exclusive views do.

use vstd::prelude::*;

verus! {

/// A count after one borrower of the given kind let go.
pub open spec fn released(count: i32, exclusive: bool) -> int {
    if exclusive {
        count + 1
    } else {
        count - 1
    }
}

/// Whether a view of the given kind can be among the holders that `count`
/// stands for.
pub open spec fn held(count: i32, exclusive: bool) -> bool {
    if exclusive {
        count < 0
    } else {
        count > 0
    }
}

/// The borrow counts of a slab's slots.
pub struct BorrowTracker {
    borrows: Vec<i32>,
}

impl View for BorrowTracker {
    type V = Seq<i32>;

    closed spec fn view(&self) -> Seq<i32> {
        self.borrows@
    }
}

impl BorrowTracker {
    /// `count` free slots.
    pub fn new(count: usize) -> (tracker: Self)
        ensures
            tracker@.len() == count,
            forall|i: int| 0 <= i < count ==> #[trigger] tracker@[i] == 0,
    {
        BorrowTracker { borrows: vec![0i32; count] }
    }

    /// Hands a free slot to its first shared view.
    pub fn take_shared(&mut self, local: u32)
        requires
            local < old(self)@.len(),
            old(self)@[local as int] == 0,
        ensures
            final(self)@ == old(self)@.update(local as int, 1),
    {
        self.borrows.set(local as usize, 1);
    }

    /// Hands a free slot to its first exclusive view.
    pub fn take_exclusive(&mut self, local: u32)
        requires
            local < old(self)@.len(),
            old(self)@[local as int] == 0,
        ensures
            final(self)@ == old(self)@.update(local as int, -1i32),
    {
        self.borrows.set(local as usize, -1);
    }

    /// Counts one more shared view.
    pub fn clone_shared(&mut self, local: u32)
        requires
            local < old(self)@.len(),
            0 < old(self)@[local as int] < i32::MAX,
        ensures
            final(self)@ == old(self)@.update(local as int, (old(self)@[local as int] + 1) as i32),
    {
        let count: i32 = self.borrows[local as usize];
        self.borrows.set(local as usize, count + 1);
    }

    /// Counts one more exclusive view, a part of another.
    pub fn split_exclusive(&mut self, local: u32)
        requires
            local < old(self)@.len(),
            i32::MIN < old(self)@[local as int] < 0,
        ensures
            final(self)@ == old(self)@.update(local as int, (old(self)@[local as int] - 1) as i32),
    {
        let count: i32 = self.borrows[local as usize];
        self.borrows.set(local as usize, count - 1);
    }

    /// Turns the sole shared view into an exclusive one.
    pub fn upgrade(&mut self, local: u32)
        requires
            local < old(self)@.len(),
            old(self)@[local as int] == 1,
        ensures
            final(self)@ == old(self)@.update(local as int, -1i32),
    {
        self.borrows.set(local as usize, -1);
    }

    /// Turns the sole exclusive view into a shared one.
    pub fn downgrade(&mut self, local: u32)
        requires
            local < old(self)@.len(),
            old(self)@[local as int] == -1,
        ensures
            final(self)@ == old(self)@.update(local as int, 1),
    {
        self.borrows.set(local as usize, 1);
    }

    /// Lets one view go. Says whether the slot is free again.
    pub fn drop_view(&mut self, exclusive: bool, local: u32) -> (free: bool)
        requires
            local < old(self)@.len(),
            held(old(self)@[local as int], exclusive),
        ensures
            final(self)@ == old(self)@.update(
                local as int,
                released(old(self)@[local as int], exclusive) as i32,
            ),
            free == (final(self)@[local as int] == 0),
    {
        let count: i32 = self.borrows[local as usize];
        let left: i32 = if exclusive {
            count + 1
        } else {
            count - 1
        };
        self.borrows.set(local as usize, left);
        left == 0
    }

    /// The number of slots.
    pub fn slot_count(&self) -> (n: usize)
        ensures
            n == self@.len(),
    {
        self.borrows.len()
    }

    /// The count of slot `local`.
    pub fn borrows(&self, local: u32) -> (count: i32)
        requires
            local < self@.len(),
        ensures
            count == self@[local as int],
    {
        self.borrows[local as usize]
    }
}

/// Upgrading and downgrading undo each other.
pub proof fn upgrade_downgrade_restores(counts: Seq<i32>, local: int)
    requires
        0 <= local < counts.len(),
        counts[local] == 1,
    ensures
        counts.update(local, -1i32).update(local, 1) == counts,
{
    assert(counts.update(local, -1i32).update(local, 1) =~= counts);
}

/// The counts of a slot after `n` views of one kind let go.
pub open spec fn released_n(count: i32, exclusive: bool, n: nat) -> int {
    if exclusive {
        count + n
    } else {
        count - n
    }
}

/// A slot becomes free with the last of its views and not before.
pub proof fn slot_frees_with_last_view(count: i32, exclusive: bool, n: nat)
    requires
        held(count, exclusive),
        n <= if exclusive {
            -count
        } else {
            count as int
        },
    ensures
        released_n(count, exclusive, n) == 0 <==> n == if exclusive {
            -count
        } else {
            count as int
        },
{
}

/// Letting a view go brings its slot one step closer to free, and never past
/// it: the count of holders drops by one, and what is left is of the same kind.
/// Shared views hold with a positive count, exclusive ones with a negative.
pub proof fn release_counts_one_holder(count: i32, exclusive: bool)
    ensures
        held(count, false) <==> count > 0,
        held(count, true) <==> count < 0,
        held(count, exclusive) && exclusive ==> -released(count, exclusive) == -count - 1,
        held(count, exclusive) && !exclusive ==> released(count, exclusive) == count - 1,
        held(count, exclusive) ==> released(count, exclusive) == 0 || held(
            released(count, exclusive) as i32,
            exclusive,
        ),
        released_n(count, exclusive, 1) == released(count, exclusive),
{
}

} // verus!
