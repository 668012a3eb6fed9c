//! Views over pooled buffer slots.
//!
//! A view names a slot and holds one borrow of it; it is neither copied nor
//! dropped silently, but cloned and released through the pools that own the
//! slot.

use std::marker::PhantomData;

use vstd::layout::size_of;
use vstd::prelude::*;

verus! {

/// The place a view names: a slot, the run it belongs to, and a byte offset
/// into it.
#[derive(Clone, Copy, Debug, PartialEq, Eq, Structural)]
pub struct Handle {
    /// Whether the slot is in the provided pool or in the fixed one.
    pub provided: bool,
    /// Class and slot, packed.
    pub bid: u32,
    pub generation: u32,
    pub offset: u32,
}

/// A range that a slice view covers, in elements from its place on.
#[derive(Clone, Copy, Debug, PartialEq, Eq, Structural)]
pub struct Span {
    pub at: Handle,
    pub len: u32,
}

/// A shared view of a slot.
pub struct Ref<T> {
    at: Handle,
    _t: PhantomData<T>,
}

impl<T> View for Ref<T> {
    type V = Handle;

    closed spec fn view(&self) -> Handle {
        self.at
    }
}

impl<T> Ref<T> {
    /// The view of a slot whose borrow was just taken.
    pub(crate) fn new(at: Handle) -> (view: Self)
        ensures
            view@ == at,
    {
        Ref { at, _t: PhantomData }
    }

    /// The place this view names.
    pub fn handle(&self) -> (at: Handle)
        ensures
            at == self@,
    {
        self.at
    }

    /// The same place, read as another type of the same size. The borrow is
    /// passed on.
    pub fn cast<U>(self) -> (view: Ref<U>)
        requires
            size_of::<T>() == size_of::<U>(),
        ensures
            view@ == self@,
    {
        Ref::new(self.at)
    }
}

/// An exclusive view of a slot.
pub struct RefMut<T> {
    at: Handle,
    _t: PhantomData<T>,
}

impl<T> View for RefMut<T> {
    type V = Handle;

    closed spec fn view(&self) -> Handle {
        self.at
    }
}

impl<T> RefMut<T> {
    /// The view of a slot whose borrow was just taken.
    pub(crate) fn new(at: Handle) -> (view: Self)
        ensures
            view@ == at,
    {
        RefMut { at, _t: PhantomData }
    }

    /// The place this view names.
    pub fn handle(&self) -> (at: Handle)
        ensures
            at == self@,
    {
        self.at
    }

    /// The same place, read as another type of the same size. The borrow is
    /// passed on.
    pub fn cast<U>(self) -> (view: RefMut<U>)
        requires
            size_of::<T>() == size_of::<U>(),
        ensures
            view@ == self@,
    {
        RefMut::new(self.at)
    }
}

/// A shared view of some elements of a slot.
pub struct Slice<T> {
    base: Ref<T>,
    len: u32,
}

impl<T> View for Slice<T> {
    type V = Span;

    closed spec fn view(&self) -> Span {
        Span { at: self.base@, len: self.len }
    }
}

impl<T> Slice<T> {
    /// Covers `len` elements from `base` on, taking over its borrow.
    pub(crate) fn new(base: Ref<T>, len: u32) -> (view: Self)
        ensures
            view@ == (Span { at: base@, len }),
    {
        Slice { base, len }
    }

    pub fn len(&self) -> (n: usize)
        ensures
            n == self@.len,
    {
        self.len as usize
    }

    pub fn is_empty(&self) -> (empty: bool)
        ensures
            empty == (self@.len == 0),
    {
        self.len == 0
    }

    /// The place of the first element.
    pub fn handle(&self) -> (at: Handle)
        ensures
            at == self@.at,
    {
        self.base.handle()
    }

    /// The view of the first element alone. The borrow is passed on.
    pub fn into_ref(self) -> (view: Ref<T>)
        ensures
            view@ == self@.at,
    {
        self.base
    }

    /// The same bytes as elements of another type, into whose size they
    /// divide. The borrow is passed on.
    pub fn cast<U>(self) -> (view: Slice<U>)
        requires
            size_of::<T>() * self@.len <= u32::MAX,
            size_of::<U>() > 0,
            (size_of::<T>() * self@.len) % (size_of::<U>() as int) == 0,
        ensures
            view@.at == self@.at,
            view@.len * size_of::<U>() == self@.len * size_of::<T>(),
    {
        let elem: usize = core::mem::size_of::<T>();
        let unit: usize = core::mem::size_of::<U>();
        assert(elem * self.len <= u32::MAX) by {
            assert(elem * self.len == size_of::<T>() * self@.len);
        }
        let bytes: usize = elem * self.len as usize;
        let n: usize = bytes / unit;
        proof {
            vstd::arithmetic::div_mod::lemma_fundamental_div_mod(bytes as int, unit as int);
            assert(n * unit == bytes) by (nonlinear_arith)
                requires
                    bytes == unit * n,
            ;
            assert(n <= bytes) by (nonlinear_arith)
                requires
                    n * unit == bytes,
                    unit >= 1,
                    n >= 0,
            ;
            assert(self@.len * size_of::<T>() == elem * self.len) by (nonlinear_arith)
                requires
                    self@.len == self.len,
                    size_of::<T>() == elem,
            ;
        }
        Slice::new(Ref::new(self.base.at), n as u32)
    }
}

/// A shared view of bytes.
pub type Bytes = Slice<u8>;

/// An exclusive view of some elements of a slot. One that was split off before
/// another view has a limit: the place in the slot where that one begins.
pub struct SliceMut<T> {
    base: RefMut<T>,
    len: u32,
    limit: Option<u32>,
}

impl<T> View for SliceMut<T> {
    type V = Span;

    closed spec fn view(&self) -> Span {
        Span { at: self.base@, len: self.len }
    }
}

impl<T> SliceMut<T> {
    #[verifier::type_invariant]
    spec fn inv(self) -> bool {
        self.limit matches Some(limit) ==> self.base@.offset + self.len * size_of::<T>() <= limit
    }

    /// The byte of the slot that the view must not reach, if another view
    /// begins there.
    pub closed spec fn limit(&self) -> Option<u32> {
        self.limit
    }

    /// What covering `len` elements from `at` on asks of a view's limit.
    pub open spec fn within(at: Handle, len: u32, limit: Option<u32>) -> bool {
        limit matches Some(limit) ==> at.offset + len * size_of::<T>() <= limit
    }

    /// Covers `len` elements from `base` on, taking over its borrow.
    pub(crate) fn new(base: RefMut<T>, len: u32) -> (view: Self)
        ensures
            view@ == (Span { at: base@, len }),
            view.limit() is None,
    {
        SliceMut { base, len, limit: None }
    }

    /// The same for a view with a limit.
    pub(crate) fn new_within(base: RefMut<T>, len: u32, limit: Option<u32>) -> (view: Self)
        requires
            Self::within(base@, len, limit),
        ensures
            view@ == (Span { at: base@, len }),
            view.limit() == limit,
    {
        SliceMut { base, len, limit }
    }

    /// The byte of the slot that the view must not reach, if another view
    /// begins there.
    pub(crate) fn get_limit(&self) -> (limit: Option<u32>)
        ensures
            limit == self.limit(),
            Self::within(self@.at, self@.len, limit),
    {
        proof {
            use_type_invariant(self);
        }
        self.limit
    }

    pub fn len(&self) -> (n: usize)
        ensures
            n == self@.len,
    {
        self.len as usize
    }

    pub fn is_empty(&self) -> (empty: bool)
        ensures
            empty == (self@.len == 0),
    {
        self.len == 0
    }

    /// The place of the first element.
    pub fn handle(&self) -> (at: Handle)
        ensures
            at == self@.at,
    {
        self.base.handle()
    }

    /// The view of the first element alone. The borrow is passed on.
    pub fn into_ref(self) -> (view: RefMut<T>)
        ensures
            view@ == self@.at,
    {
        self.base
    }

    /// Covers `len` elements instead.
    pub(crate) fn with_len(&mut self, len: u32)
        requires
            Self::within(old(self)@.at, len, old(self).limit()),
        ensures
            final(self)@ == (Span { at: old(self)@.at, len }),
            final(self).limit() == old(self).limit(),
    {
        self.len = len;
    }

    /// The same bytes as elements of another type, into whose size they
    /// divide. The borrow is passed on.
    pub fn cast<U>(self) -> (view: SliceMut<U>)
        requires
            size_of::<T>() * self@.len <= u32::MAX,
            size_of::<U>() > 0,
            (size_of::<T>() * self@.len) % (size_of::<U>() as int) == 0,
        ensures
            view@.at == self@.at,
            view@.len * size_of::<U>() == self@.len * size_of::<T>(),
            view.limit() == self.limit(),
    {
        let limit: Option<u32> = self.get_limit();
        let shared: Slice<T> = Slice::new(Ref::new(self.base.at), self.len);
        let cast: Slice<U> = shared.cast::<U>();
        SliceMut::new_within(RefMut::new(cast.handle()), cast.len, limit)
    }
}

/// An exclusive view of bytes.
pub type BytesMut = SliceMut<u8>;

} // verus!
