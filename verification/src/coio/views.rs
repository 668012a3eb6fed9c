//! What views do with the buffers they borrow from.

use vstd::layout::size_of;
use vstd::prelude::*;

use crate::coio::buf::Bytes;
use crate::coio::buf::BytesMut;
use crate::coio::buf::Handle;
use crate::coio::buf::Ref;
use crate::coio::buf::RefMut;
use crate::coio::buf::Slice;
use crate::coio::buf::SliceMut;
use crate::coio::buf::Span;
use crate::coio::buffers::Buffers;
use crate::coio::buffers::EFBIG;
use crate::coio::buffers::ENOBUFS;
use crate::coio::classes;
use crate::coio::pool::Slab;

verus! {

impl<T> Ref<T> {
    /// Where the slot's memory is, from the start of the buffers' memory.
    pub fn as_ptr(&self, b: &Buffers) -> (place: usize)
        requires
            b.wf(),
            b.live(self@),
            b.knows(self@),
        ensures
            place == b.place_of(self@),
    {
        b.resolve(self.handle())
    }

    /// A second shared view of the same place.
    pub fn clone_in(&self, b: &mut Buffers) -> (view: Ref<T>)
        requires
            old(b).wf(),
            old(b).live(self@) ==> old(b).knows(self@) && 0 < old(b).count_at(self@) < i32::MAX,
        ensures
            final(b).wf(),
            view@ == self@,
            old(b).live(self@) ==> Buffers::viewed(
                &*old(b),
                &*final(b),
                self@,
                old(b).count_at(self@) + 1,
            ),
            !old(b).live(self@) ==> *final(b) == *old(b),
    {
        b.clone_view(self.handle());
        Ref::new(self.handle())
    }

    /// Turns this view, which must be the only one, into an exclusive one.
    pub fn into_mut(self, b: &mut Buffers) -> (view: RefMut<T>)
        requires
            old(b).wf(),
            old(b).live(self@),
            old(b).knows(self@),
            old(b).count_at(self@) == 1,
        ensures
            final(b).wf(),
            view@ == self@,
            Buffers::viewed(&*old(b), &*final(b), self@, -1),
    {
        b.upgrade_view(self.handle());
        RefMut::new(self.handle())
    }

    /// Gives the borrow back.
    pub fn release(self, b: &mut Buffers)
        requires
            old(b).wf(),
            old(b).live(self@) ==> old(b).knows(self@) && old(b).count_at(self@) > 0,
        ensures
            final(b).wf(),
            old(b).live(self@) ==> Buffers::dropped(
                &*old(b),
                &*final(b),
                self@,
                old(b).count_at(self@) - 1,
            ),
            !old(b).live(self@) ==> *final(b) == *old(b),
    {
        b.drop_view(self.handle(), false);
    }
}

impl<T> RefMut<T> {
    /// Where the slot's memory is, from the start of the buffers' memory.
    pub fn as_ptr(&self, b: &Buffers) -> (place: usize)
        requires
            b.wf(),
            b.live(self@),
            b.knows(self@),
        ensures
            place == b.place_of(self@),
    {
        b.resolve(self.handle())
    }

    /// Turns this view, which must be the only one, into a shared one.
    pub fn into_ref(self, b: &mut Buffers) -> (view: Ref<T>)
        requires
            old(b).wf(),
            old(b).live(self@),
            old(b).knows(self@),
            old(b).count_at(self@) == -1,
        ensures
            final(b).wf(),
            view@ == self@,
            Buffers::viewed(&*old(b), &*final(b), self@, 1),
    {
        b.downgrade_view(self.handle());
        Ref::new(self.handle())
    }

    /// Gives the borrow back.
    pub fn release(self, b: &mut Buffers)
        requires
            old(b).wf(),
            old(b).live(self@) ==> old(b).knows(self@) && old(b).count_at(self@) < 0,
        ensures
            final(b).wf(),
            old(b).live(self@) ==> Buffers::dropped(
                &*old(b),
                &*final(b),
                self@,
                old(b).count_at(self@) + 1,
            ),
            !old(b).live(self@) ==> *final(b) == *old(b),
    {
        b.drop_view(self.handle(), true);
    }
}

impl<T> Slice<T> {
    /// Where the first element's memory is, from the start of the buffers'
    /// memory.
    pub fn as_ptr(&self, b: &Buffers) -> (place: usize)
        requires
            b.wf(),
            b.live(self@.at),
            b.knows(self@.at),
        ensures
            place == b.place_of(self@.at),
    {
        b.resolve(self.handle())
    }
}

impl<T> SliceMut<T> {
    /// Where the first element's memory is, from the start of the buffers'
    /// memory.
    pub fn as_ptr(&self, b: &Buffers) -> (place: usize)
        requires
            b.wf(),
            b.live(self@.at),
            b.knows(self@.at),
        ensures
            place == b.place_of(self@.at),
    {
        b.resolve(self.handle())
    }
}

/// The part `[from, to)` of a view's bytes.
pub open spec fn part(span: Span, from: int, to: int) -> Span {
    Span {
        at: Handle { offset: (span.at.offset + from) as u32, ..span.at },
        len: (to - from) as u32,
    }
}

impl Buffers {
    /// How many bytes a view at `at` with this limit can cover.
    pub open spec fn room(&self, at: Handle, limit: Option<u32>) -> int {
        let size = self.shape_of(at.provided, (at.bid >> 24) as int).size;
        let end = match limit {
            Some(limit) if limit < size => limit,
            _ => size,
        };
        end - at.offset
    }

    /// Copies the bytes that a view covers.
    pub fn read_span(&self, span: Span) -> (bytes: Vec<u8>)
        requires
            self.wf(),
            self.live(span.at),
            self.covers(span),
        ensures
            bytes@ == self.bytes_of(span),
    {
        let start: usize = self.resolve(span.at);
        proof {
            self.lemma_covers(span);
        }
        crate::lines::copy_range(self.memory().as_slice(), start, start + span.len as usize)
    }

    /// A covered range lies within the memory.
    pub proof fn lemma_covers(&self, span: Span)
        requires
            self.wf(),
            self.covers(span),
        ensures
            0 <= self.place_of(span.at),
            self.place_of(span.at) + span.len <= self.memory_view().len(),
            self.place_of(span.at) + span.len <= usize::MAX,
    {
        let class = (span.at.bid >> 24) as int;
        let local = (span.at.bid & 0x00FF_FFFF) as int;
        let shape = self.shape_of(span.at.provided, class);
        let n = self.counts(span.at.provided)[class].len() as int;
        assert(0 <= local * shape.size && local * shape.size + shape.size <= n * shape.size)
            by (nonlinear_arith)
            requires
                0 <= local,
                local + 1 <= n,
                shape.size >= 0,
        ;
        if span.at.provided {
            self.provided_slabs()[class].slots_fit();
        } else {
            self.fixed_slabs()[class].slots_fit();
        }
    }

    /// A fixed buffer of at least `size` bytes, from the smallest class that
    /// holds them. An error says whether no class does ([`EFBIG`]) or that
    /// class is exhausted ([`ENOBUFS`]).
    pub fn alloc_bytes(&mut self, size: usize) -> (view: Result<BytesMut, i32>)
        requires
            old(self).wf(),
        ensures
            final(self).wf(),
            ({
                let class = classes::first_fit(old(self).fixed_classes(), size as int);
                match view {
                    Ok(v) => {
                        &&& Buffers::allocated(&*old(self), &*final(self), size as int, v@.at, -1)
                        &&& v@.len == old(self).fixed_slabs()[class].shape().size
                        &&& v@.len >= size
                        &&& v.limit() is None
                        &&& final(self).covers(v@)
                    },
                    Err(e) => {
                        &&& old(self).exhausted(size as int)
                        &&& *final(self) == *old(self)
                        &&& e == if class >= old(self).fixed_slabs().len() {
                            EFBIG
                        } else {
                            ENOBUFS
                        }
                    },
                }
            }),
    {
        proof {
            classes::lemma_first_fit(self.fixed_classes(), size as int);
        }
        match self.take_fixed(size, true) {
            Some(at) => {
                let len: u32 = self.slot_size(at);
                proof {
                    allocated_slot_holds_its_size(&*old(self), &*self, size as int, at, -1);
                }
                Ok(SliceMut::new(RefMut::new(at), len))
            },
            None => if self.fits_no_class(size) {
                Err(EFBIG)
            } else {
                Err(ENOBUFS)
            },
        }
    }

    /// A shared view of a fixed slot that holds a `T`. Nothing when no class
    /// does or that class is exhausted.
    pub fn alloc_ref<T>(&mut self) -> (view: Option<Ref<T>>)
        requires
            old(self).wf(),
            size_of::<T>() > 0,
        ensures
            final(self).wf(),
            match view {
                Some(v) => Buffers::allocated(
                    &*old(self),
                    &*final(self),
                    size_of::<T>() as int,
                    v@,
                    1,
                ),
                None => old(self).exhausted(size_of::<T>() as int) && *final(self) == *old(self),
            },
    {
        let size: usize = core::mem::size_of::<T>();
        match self.take_fixed(size, false) {
            Some(at) => Some(Ref::new(at)),
            None => None,
        }
    }

    /// An exclusive view of a fixed slot that holds a `T`. Nothing when no
    /// class does or that class is exhausted.
    pub fn alloc_mut<T>(&mut self) -> (view: Option<RefMut<T>>)
        requires
            old(self).wf(),
            size_of::<T>() > 0,
        ensures
            final(self).wf(),
            match view {
                Some(v) => Buffers::allocated(
                    &*old(self),
                    &*final(self),
                    size_of::<T>() as int,
                    v@,
                    -1,
                ),
                None => old(self).exhausted(size_of::<T>() as int) && *final(self) == *old(self),
            },
    {
        let size: usize = core::mem::size_of::<T>();
        match self.take_fixed(size, true) {
            Some(at) => Some(RefMut::new(at)),
            None => None,
        }
    }
}

impl Bytes {
    /// The covered bytes.
    pub fn to_vec(&self, b: &Buffers) -> (bytes: Vec<u8>)
        requires
            b.wf(),
            b.live(self@.at),
            b.covers(self@),
        ensures
            bytes@ == b.bytes_of(self@),
    {
        b.read_span(Span { at: self.handle(), len: self.len() as u32 })
    }

    /// A second shared view, of the bytes `[from, to)`. Nothing when that is
    /// no part of this view.
    pub fn sub(&self, b: &mut Buffers, from: usize, to: usize) -> (view: Option<Bytes>)
        requires
            old(b).wf(),
            self@.at.offset + self@.len <= u32::MAX,
            old(b).live(self@.at) ==> old(b).covers(self@) && 0 < old(b).count_at(self@.at)
                < i32::MAX,
        ensures
            final(b).wf(),
            match view {
                Some(v) => {
                    &&& from <= to <= self@.len
                    &&& v@ == part(self@, from as int, to as int)
                    &&& old(b).live(self@.at) ==> Buffers::viewed(
                        &*old(b),
                        &*final(b),
                        self@.at,
                        old(b).count_at(self@.at) + 1,
                    )
                    &&& !old(b).live(self@.at) ==> *final(b) == *old(b)
                },
                None => !(from <= to <= self@.len) && *final(b) == *old(b),
            },
    {
        if from > to || to > self.len() {
            return None;
        }
        let at: Handle = self.handle();
        b.clone_view(at);
        Some(
            Slice::new(
                Ref::new(Handle { offset: at.offset + from as u32, ..at }),
                (to - from) as u32,
            ),
        )
    }

    /// Copies the bytes out and gives the borrow back.
    pub fn into_vec(self, b: &mut Buffers) -> (bytes: Vec<u8>)
        requires
            old(b).wf(),
            old(b).live(self@.at),
            old(b).covers(self@),
            old(b).count_at(self@.at) > 0,
        ensures
            final(b).wf(),
            bytes@ == old(b).bytes_of(self@),
            Buffers::dropped(&*old(b), &*final(b), self@.at, old(b).count_at(self@.at) - 1),
    {
        let bytes: Vec<u8> = self.to_vec(&*b);
        b.drop_view(self.handle(), false);
        bytes
    }

    /// Turns this view, which must be the only one, into an exclusive one.
    pub fn into_mut(self, b: &mut Buffers) -> (view: BytesMut)
        requires
            old(b).wf(),
            old(b).live(self@.at),
            old(b).knows(self@.at),
            old(b).count_at(self@.at) == 1,
        ensures
            final(b).wf(),
            view@ == self@,
            view.limit() is None,
            Buffers::viewed(&*old(b), &*final(b), self@.at, -1),
    {
        let len: u32 = self.len() as u32;
        SliceMut::new(self.into_ref().into_mut(b), len)
    }

    /// Gives the borrow back.
    pub fn release(self, b: &mut Buffers)
        requires
            old(b).wf(),
            old(b).live(self@.at) ==> old(b).knows(self@.at) && old(b).count_at(self@.at) > 0,
        ensures
            final(b).wf(),
            old(b).live(self@.at) ==> Buffers::dropped(
                &*old(b),
                &*final(b),
                self@.at,
                old(b).count_at(self@.at) - 1,
            ),
            !old(b).live(self@.at) ==> *final(b) == *old(b),
    {
        b.drop_view(self.handle(), false);
    }
}

impl BytesMut {
    /// The most bytes this view can cover: the rest of its slot, or what lies
    /// before the view that it was split from.
    pub fn capacity(&self, b: &Buffers) -> (n: u32)
        requires
            b.wf(),
            b.live(self@.at),
            b.knows(self@.at),
        ensures
            n == b.room(self@.at, self.limit()),
    {
        broadcast use vstd::layout::layout_of_primitives;

        let size: u32 = b.slot_size(self.handle());
        let end: u32 = match self.get_limit() {
            Some(limit) => if limit < size {
                limit
            } else {
                size
            },
            None => size,
        };
        end - self.handle().offset
    }

    /// Covers `new_len` bytes, for which there must be room.
    pub fn set_len(&mut self, b: &Buffers, new_len: u32)
        requires
            b.wf(),
            b.live(old(self)@.at),
            b.knows(old(self)@.at),
            new_len <= b.room(old(self)@.at, old(self).limit()),
        ensures
            final(self)@ == (Span { at: old(self)@.at, len: new_len }),
            final(self).limit() == old(self).limit(),
            b.covers(final(self)@),
    {
        broadcast use vstd::layout::layout_of_primitives;

        self.with_len(new_len);
    }

    /// Covers nothing, keeping the slot.
    pub fn clear(&mut self)
        ensures
            final(self)@ == (Span { at: old(self)@.at, len: 0 }),
            final(self).limit() == old(self).limit(),
    {
        broadcast use vstd::layout::layout_of_primitives;

        let _ = self.get_limit();
        self.with_len(0);
    }

    /// Splits the covered bytes at `mid` into two exclusive views, of which the
    /// first cannot grow into the second. When there are fewer bytes, nothing
    /// comes back and the borrow is released.
    pub fn split_at(self, b: &mut Buffers, mid: usize) -> (halves: Option<(BytesMut, BytesMut)>)
        requires
            old(b).wf(),
            self@.at.offset + self@.len <= u32::MAX,
            old(b).live(self@.at) ==> old(b).covers(self@) && i32::MIN < old(b).count_at(self@.at)
                < 0,
        ensures
            final(b).wf(),
            halves is Some <==> mid <= self@.len,
            halves matches Some((head, tail)) ==> {
                &&& head@ == part(self@, 0, mid as int)
                &&& head.limit() == Some((self@.at.offset + mid) as u32)
                &&& tail@ == part(self@, mid as int, self@.len as int)
                &&& tail.limit() == self.limit()
            },
            old(b).live(self@.at) ==> if mid <= self@.len {
                Buffers::viewed(
                    &*old(b),
                    &*final(b),
                    self@.at,
                    old(b).count_at(self@.at) - 1,
                )
            } else {
                Buffers::dropped(
                    &*old(b),
                    &*final(b),
                    self@.at,
                    old(b).count_at(self@.at) + 1,
                )
            },
            !old(b).live(self@.at) ==> *final(b) == *old(b),
    {
        broadcast use vstd::layout::layout_of_primitives;

        let limit: Option<u32> = self.get_limit();
        let len: usize = self.len();
        if mid > len {
            b.drop_view(self.handle(), true);
            return None;
        }
        let at: Handle = self.handle();
        b.split_exclusive(at);
        let border: u32 = at.offset + mid as u32;
        let head: BytesMut = SliceMut::new_within(RefMut::new(at), mid as u32, Some(border));
        let tail: BytesMut = SliceMut::new_within(
            RefMut::new(Handle { offset: border, ..at }),
            (len - mid) as u32,
            limit,
        );
        Some((head, tail))
    }

    /// Turns this view, which must be the only one, into a shared one.
    pub fn into_bytes(self, b: &mut Buffers) -> (view: Bytes)
        requires
            old(b).wf(),
            old(b).live(self@.at),
            old(b).knows(self@.at),
            old(b).count_at(self@.at) == -1,
        ensures
            final(b).wf(),
            view@ == self@,
            Buffers::viewed(&*old(b), &*final(b), self@.at, 1),
    {
        let len: u32 = self.len() as u32;
        let base: RefMut<u8> = SliceMut::into_ref(self);
        Slice::new(base.into_ref(b), len)
    }

    /// The covered bytes.
    pub fn to_vec(&self, b: &Buffers) -> (bytes: Vec<u8>)
        requires
            b.wf(),
            b.live(self@.at),
            b.covers(self@),
        ensures
            bytes@ == b.bytes_of(self@),
    {
        b.read_span(Span { at: self.handle(), len: self.len() as u32 })
    }

    /// The covered bytes, to change.
    pub fn as_mut<'a>(&self, b: &'a mut Buffers) -> (bytes: &'a mut [u8])
        requires
            old(b).wf(),
            old(b).live(self@.at),
            old(b).covers(self@),
        ensures
            bytes@ == old(b).bytes_of(self@),
            final(bytes)@.len() == self@.len ==> final(b).wf(),
            final(b).same_layout(&*old(b)),
            final(b).provided_slabs() == old(b).provided_slabs(),
            final(b).fixed_slabs() == old(b).fixed_slabs(),
            ({
                let start = old(b).place_of(self@.at);
                final(b).memory_view() == old(b).memory_view().take(start) + final(bytes)@ + old(
                    b,
                ).memory_view().skip(start + self@.len)
            }),
    {
        proof {
            b.lemma_covers(self@);
        }
        let start: usize = b.resolve(self.handle());
        b.slice_mut(start, self.len())
    }

    /// Writes `data` over the first covered bytes.
    pub fn write(&mut self, b: &mut Buffers, data: &[u8])
        requires
            old(b).wf(),
            old(b).live(old(self)@.at),
            old(b).covers(old(self)@),
            data@.len() <= old(self)@.len,
        ensures
            final(b).wf(),
            final(self)@ == old(self)@,
            final(self).limit() == old(self).limit(),
            final(b).same_layout(&*old(b)),
            final(b).provided_slabs() == old(b).provided_slabs(),
            final(b).fixed_slabs() == old(b).fixed_slabs(),
            ({
                let start = old(b).place_of(old(self)@.at);
                final(b).memory_view() == old(b).memory_view().take(start) + data@ + old(
                    b,
                ).memory_view().skip(start + data@.len())
            }),
            final(b).bytes_of(part(old(self)@, 0, data@.len() as int)) == data@,
    {
        let ghost span = self@;
        proof {
            b.lemma_covers(span);
        }
        let start: usize = b.resolve(self.handle());
        b.write_at(start, data);
        assert(b.bytes_of(part(span, 0, data@.len() as int)) =~= data@);
    }

    /// Gives the borrow back.
    pub fn release(self, b: &mut Buffers)
        requires
            old(b).wf(),
            old(b).live(self@.at) ==> old(b).knows(self@.at) && old(b).count_at(self@.at) < 0,
        ensures
            final(b).wf(),
            old(b).live(self@.at) ==> Buffers::dropped(
                &*old(b),
                &*final(b),
                self@.at,
                old(b).count_at(self@.at) + 1,
            ),
            !old(b).live(self@.at) ==> *final(b) == *old(b),
    {
        b.drop_view(self.handle(), true);
    }
}

/// A slot that was allocated for some bytes holds them.
pub proof fn allocated_slot_holds_its_size(
    before: &Buffers,
    after: &Buffers,
    size: int,
    at: Handle,
    count: int,
)
    requires
        before.wf(),
        Buffers::allocated(before, after, size, at, count),
    ensures
        after.knows(at),
        after.shape_of(false, (at.bid >> 24) as int).size >= size,
        at.offset == 0,
{
    classes::lemma_first_fit(before.fixed_classes(), size);
    let class = (at.bid >> 24) as int;
    let local = (at.bid & 0x00FF_FFFF) as int;
    assert(after.fixed_slabs()[class].shape() == before.fixed_slabs()[class].shape());
    assert(after.counts(false)[class] == before.counts(false)[class].update(local, count as i32));
}

/// Writing through a view changes no byte that a view of another slot covers.
pub proof fn writes_stay_in_their_slot(
    before: &Buffers,
    after: &Buffers,
    written: Span,
    data: Seq<u8>,
    other: Span,
)
    requires
        before.wf(),
        after.wf(),
        before.covers(written),
        before.covers(other),
        data.len() <= written.len,
        written.at.provided != other.at.provided || written.at.bid != other.at.bid,
        after.same_layout(before),
        after.counts(true) == before.counts(true),
        after.counts(false) == before.counts(false),
        after.memory_view() == before.memory_view().take(before.place_of(written.at)) + data
            + before.memory_view().skip(before.place_of(written.at) + data.len()),
    ensures
        after.bytes_of(other) == before.bytes_of(other),
{
    before.lemma_covers(written);
    before.lemma_covers(other);
    crate::coio::buffers::slots_never_overlap(before, written.at, other.at);
    let class = (other.at.bid >> 24) as int;
    assert(after.counts(other.at.provided)[class] == before.counts(other.at.provided)[class]);
    assert(after.shape_of(other.at.provided, class) == before.shape_of(other.at.provided, class))
        by {
        if other.at.provided {
            assert(after.provided_slabs()[class].shape() == before.provided_slabs()[class].shape());
        } else {
            assert(after.fixed_slabs()[class].shape() == before.fixed_slabs()[class].shape());
        }
    }
    assert(after.bytes_of(other) =~= before.bytes_of(other));
}

/// The halves of a split cover the whole and do not overlap.
pub proof fn split_halves_partition(span: Span, mid: int)
    requires
        0 <= mid <= span.len,
        span.at.offset + span.len <= u32::MAX,
    ensures
        part(span, 0, mid).at.offset == span.at.offset,
        part(span, 0, mid).at.offset + part(span, 0, mid).len == part(
            span,
            mid,
            span.len as int,
        ).at.offset,
        part(span, 0, mid).len + part(span, mid, span.len as int).len == span.len,
{
}

/// Whatever lengths the halves of a split are set to, they do not overlap, and
/// both stay within the room that the whole had. So no two views that come out
/// of one by splitting ever overlap.
pub proof fn resized_halves_stay_disjoint(
    b: &Buffers,
    span: Span,
    limit: Option<u32>,
    mid: int,
    head_len: int,
    tail_len: int,
)
    requires
        0 <= mid <= span.len,
        span.at.offset + span.len <= u32::MAX,
        span.len <= b.room(span.at, limit),
        0 <= head_len <= b.room(part(span, 0, mid).at, Some((span.at.offset + mid) as u32)),
        0 <= tail_len <= b.room(part(span, mid, span.len as int).at, limit),
    ensures
        ({
            let head = part(span, 0, mid).at;
            let tail = part(span, mid, span.len as int).at;
            let end = span.at.offset + b.room(span.at, limit);
            &&& head_len <= mid
            &&& head.offset + head_len <= tail.offset
            &&& tail.offset + tail_len <= end
            &&& span.at.offset <= head.offset
        }),
{
}

/// The view of a view's part is the part of the view.
pub proof fn parts_compose(span: Span, from: int, to: int, a: int, b: int)
    requires
        0 <= from <= to <= span.len,
        0 <= a <= b <= to - from,
        span.at.offset + span.len <= u32::MAX,
    ensures
        part(part(span, from, to), a, b) == part(span, from + a, from + b),
{
}

/// The part of a view covers that range of its bytes.
pub proof fn part_covers_its_range(b: &Buffers, span: Span, from: int, to: int)
    requires
        b.wf(),
        b.covers(span),
        0 <= from <= to <= span.len,
    ensures
        b.covers(part(span, from, to)),
        b.bytes_of(part(span, from, to)) == b.bytes_of(span).subrange(from, to),
        part(span, from, to).len == to - from,
        part(span, from, to).at.bid == span.at.bid,
{
    b.lemma_covers(span);
    assert(b.bytes_of(part(span, from, to)) =~= b.bytes_of(span).subrange(from, to));
}

/// A view can reach to the end of its slot, or to where the next view begins if
/// that comes first.
pub proof fn room_ends_at_the_next_view(b: &Buffers, at: Handle, limit: u32)
    ensures
        ({
            let size = b.shape_of(at.provided, (at.bid >> 24) as int).size;
            &&& at.offset + b.room(at, None) == size
            &&& limit < size ==> at.offset + b.room(at, Some(limit)) == limit
            &&& limit >= size ==> at.offset + b.room(at, Some(limit)) == size
        }),
{
}

} // verus!
