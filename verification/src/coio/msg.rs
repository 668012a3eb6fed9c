//! The arguments of message operations: buffers to gather or scatter, and
//! control data.
//!
//! A message holds three slots of the fixed pool, for the header, the array of
//! buffers and the control bytes that the kernel is given. The control bytes
//! are put into theirs before a send; the other two hold addresses, which are
//! not known here.

use vstd::prelude::*;

use crate::coio::buf::Handle;
use crate::coio::buf::RefMut;
use crate::coio::buf::Span;
use crate::coio::buffers::Buffers;
use crate::coio::classes;
use crate::coio::pool::Slab;

verus! {

/// The most buffers that the kernel takes in one message.
pub const MAX_IOV_CAP: usize = 1024;

/// The most descriptors that one message carries.
pub const SCM_MAX_FD: usize = 253;

/// The most control bytes of one message: those that carry
/// [`SCM_MAX_FD`] descriptors.
pub const MAX_CTRL_CAP: usize = 1032;

/// The size of a control message's header.
pub const CMSG_HDR_LEN: usize = 16;

/// The size of a message header.
pub const MSGHDR_LEN: usize = 56;

/// The size of the array of buffers.
pub const IOV_ARRAY_LEN: usize = 16384;

pub const SOL_SOCKET: i32 = 1;

pub const SCM_RIGHTS: i32 = 1;

/// The smallest multiple of eight that is no less than `n`.
pub open spec fn aligned8(n: int) -> int {
    (n + 7) / 8 * 8
}

/// The control bytes that a control message with `payload` bytes takes: header,
/// payload, and padding up to the next one.
pub open spec fn space_of(payload: int) -> int {
    CMSG_HDR_LEN + aligned8(payload)
}

/// The control bytes that a control message with `payload` bytes takes.
pub fn cmsg_space(payload: usize) -> (n: usize)
    requires
        payload <= usize::MAX - 32,
    ensures
        n == space_of(payload as int),
{
    CMSG_HDR_LEN + (payload + 7) / 8 * 8
}

/// The largest control buffer carries the most descriptors, and no more.
pub proof fn control_capacity_is_that_of_most_descriptors()
    ensures
        MAX_CTRL_CAP == space_of(SCM_MAX_FD * 4),
{
}

/// The `n` lowest bytes of `x`, lowest first.
pub open spec fn le_bytes(x: int, n: nat) -> Seq<u8>
    decreases n,
{
    if n == 0 {
        Seq::empty()
    } else {
        seq![(x % 256) as u8] + le_bytes(x / 256, (n - 1) as nat)
    }
}

pub proof fn lemma_le_bytes_len(x: int, n: nat)
    ensures
        le_bytes(x, n).len() == n,
    decreases n,
{
    if n > 0 {
        lemma_le_bytes_len(x / 256, (n - 1) as nat);
    }
}

/// The number that bytes, lowest first, stand for.
pub open spec fn le_value(s: Seq<u8>) -> int
    decreases s.len(),
{
    if s.len() == 0 {
        0
    } else {
        s[0] + 256 * le_value(s.skip(1))
    }
}

/// Numbers are read back from their bytes.
pub proof fn le_bytes_read_back(x: int, n: nat)
    requires
        0 <= x < vstd::arithmetic::power::pow(256, n),
    ensures
        le_value(le_bytes(x, n)) == x,
    decreases n,
{
    if n == 0 {
        vstd::arithmetic::power::lemma_pow0(256);
    } else {
        let m = (n - 1) as nat;
        assert(vstd::arithmetic::power::pow(256, n) == 256 * vstd::arithmetic::power::pow(256, m))
            by {
            reveal(vstd::arithmetic::power::pow);
        }
        le_bytes_read_back(x / 256, m);
        assert(le_bytes(x, n).skip(1) =~= le_bytes(x / 256, m));
    }
}

/// The two's complement of `x` in four bytes.
pub open spec fn word_of(x: i32) -> int {
    if x < 0 {
        x + 0x1_0000_0000
    } else {
        x as int
    }
}

fn push_le(out: &mut Vec<u8>, x: u64, n: usize)
    ensures
        final(out)@ == old(out)@ + le_bytes(x as int, n as nat),
{
    let ghost before = out@;
    let mut left: u64 = x;
    let mut k: usize = 0;
    assert(before + le_bytes(x as int, n as nat) =~= out@ + le_bytes(left as int, n as nat));
    while k < n
        invariant
            k <= n,
            before + le_bytes(x as int, n as nat) == out@ + le_bytes(left as int, (n - k) as nat),
        decreases n - k,
    {
        let ghost rest = le_bytes(left as int / 256, (n - k - 1) as nat);
        let ghost now = out@;
        let byte: u8 = (left % 256) as u8;
        out.push(byte);
        assert(now + (seq![byte] + rest) =~= out@ + rest);
        left = left / 256;
        k = k + 1;
    }
    assert(out@ + Seq::<u8>::empty() =~= out@);
}

fn word(x: i32) -> (w: u64)
    ensures
        w == word_of(x),
{
    if x < 0 {
        (x as i64 + 0x1_0000_0000) as u64
    } else {
        x as u64
    }
}

/// One control message: its length without padding, level and kind, then the
/// payload, padded with zeros.
pub open spec fn cmsg_bytes(level: i32, kind: i32, payload: Seq<u8>) -> Seq<u8> {
    le_bytes(CMSG_HDR_LEN + payload.len(), 8) + le_bytes(word_of(level), 4) + le_bytes(
        word_of(kind),
        4,
    ) + payload + Seq::new(
        (aligned8(payload.len() as int) - payload.len()) as nat,
        |i: int| 0u8,
    )
}

proof fn lemma_cmsg_len(level: i32, kind: i32, payload: Seq<u8>)
    ensures
        cmsg_bytes(level, kind, payload).len() == space_of(payload.len() as int),
{
    lemma_le_bytes_len(CMSG_HDR_LEN + payload.len(), 8);
    lemma_le_bytes_len(word_of(level), 4);
    lemma_le_bytes_len(word_of(kind), 4);
}

/// Descriptors as the payload of a control message.
pub open spec fn rights_payload(fds: Seq<i32>) -> Seq<u8>
    decreases fds.len(),
{
    if fds.len() == 0 {
        Seq::empty()
    } else {
        rights_payload(fds.drop_last()) + le_bytes(word_of(fds.last()), 4)
    }
}

proof fn lemma_rights_len(fds: Seq<i32>)
    ensures
        rights_payload(fds).len() == 4 * fds.len(),
    decreases fds.len(),
{
    if fds.len() > 0 {
        lemma_rights_len(fds.drop_last());
        lemma_le_bytes_len(word_of(fds.last()), 4);
    }
}

/// As many descriptors as the kernel takes fit into an empty message.
pub proof fn most_descriptors_fit(fds: Seq<i32>)
    requires
        fds.len() <= SCM_MAX_FD,
    ensures
        space_of(rights_payload(fds).len() as int) <= MAX_CTRL_CAP,
{
    lemma_rights_len(fds);
}

/// A buffer that a message gathers from or scatters to.
#[derive(Clone, Copy, Debug, PartialEq, Eq, Structural)]
pub struct IoBuf {
    pub base: usize,
    pub len: usize,
}

/// What a message is made of: buffers and control bytes, each up to the
/// kernel's limit.
pub struct Parts {
    iov: Vec<IoBuf>,
    ctrl: Vec<u8>,
}

impl Parts {
    #[verifier::type_invariant]
    spec fn inv(self) -> bool {
        &&& self.iov@.len() <= MAX_IOV_CAP
        &&& self.ctrl@.len() <= MAX_CTRL_CAP
    }

    pub closed spec fn bufs(&self) -> Seq<IoBuf> {
        self.iov@
    }

    pub closed spec fn control(&self) -> Seq<u8> {
        self.ctrl@
    }

    fn new() -> (parts: Self)
        ensures
            parts.bufs() == Seq::<IoBuf>::empty(),
            parts.control() == Seq::<u8>::empty(),
    {
        Parts { iov: Vec::new(), ctrl: Vec::new() }
    }

    fn push_iov(&mut self, iov: IoBuf) -> (pushed: bool)
        ensures
            pushed == (old(self).bufs().len() < MAX_IOV_CAP),
            final(self).bufs() == if pushed {
                old(self).bufs().push(iov)
            } else {
                old(self).bufs()
            },
            final(self).control() == old(self).control(),
    {
        proof {
            use_type_invariant(&*self);
        }
        if self.iov.len() >= MAX_IOV_CAP {
            return false;
        }
        let mut all: Vec<IoBuf> = Vec::new();
        core::mem::swap(&mut all, &mut self.iov);
        all.push(iov);
        self.iov = all;
        true
    }

    fn push_cmsg(&mut self, level: i32, kind: i32, payload: &[u8]) -> (pushed: bool)
        ensures
            pushed == (old(self).control().len() + space_of(payload@.len() as int)
                <= MAX_CTRL_CAP),
            final(self).control() == if pushed {
                old(self).control() + cmsg_bytes(level, kind, payload@)
            } else {
                old(self).control()
            },
            final(self).bufs() == old(self).bufs(),
    {
        proof {
            use_type_invariant(&*self);
            lemma_cmsg_len(level, kind, payload@);
        }
        if payload.len() > MAX_CTRL_CAP {
            return false;
        }
        let space: usize = cmsg_space(payload.len());
        if self.ctrl.len() + space > MAX_CTRL_CAP {
            return false;
        }
        let ghost before = self.ctrl@;
        let mut all: Vec<u8> = Vec::new();
        core::mem::swap(&mut all, &mut self.ctrl);
        push_le(&mut all, CMSG_HDR_LEN as u64 + payload.len() as u64, 8);
        push_le(&mut all, word(level), 4);
        push_le(&mut all, word(kind), 4);
        let ghost head = le_bytes(CMSG_HDR_LEN + payload@.len(), 8) + le_bytes(word_of(level), 4)
            + le_bytes(word_of(kind), 4);
        assert(all@ =~= before + head);
        crate::frame::append_bytes(&mut all, payload);
        assert(all@ =~= before + head + payload@);
        let pad: usize = (payload.len() + 7) / 8 * 8 - payload.len();
        let mut k: usize = 0;
        while k < pad
            invariant
                k <= pad,
                all@ == before + head + payload@ + Seq::new(k as nat, |i: int| 0u8),
            decreases pad - k,
        {
            all.push(0);
            k = k + 1;
            assert(all@ =~= before + head + payload@ + Seq::new(k as nat, |i: int| 0u8));
        }
        assert(all@ =~= before + cmsg_bytes(level, kind, payload@));
        self.ctrl = all;
        true
    }

    fn push_scm_rights(&mut self, fds: &[i32]) -> (pushed: bool)
        ensures
            pushed == (old(self).control().len() + space_of(rights_payload(fds@).len() as int)
                <= MAX_CTRL_CAP),
            final(self).control() == if pushed {
                old(self).control() + cmsg_bytes(SOL_SOCKET, SCM_RIGHTS, rights_payload(fds@))
            } else {
                old(self).control()
            },
            final(self).bufs() == old(self).bufs(),
    {
        let mut payload: Vec<u8> = Vec::new();
        let mut k: usize = 0;
        assert(fds@.take(0) =~= Seq::empty());
        while k < fds.len()
            invariant
                k <= fds@.len(),
                payload@ == rights_payload(fds@.take(k as int)),
            decreases fds@.len() - k,
        {
            push_le(&mut payload, word(fds[k]), 4);
            proof {
                let t = fds@.take(k + 1);
                assert(t.drop_last() =~= fds@.take(k as int));
                assert(t.last() == fds@[k as int]);
            }
            k = k + 1;
        }
        assert(fds@.take(k as int) =~= fds@);
        self.push_cmsg(SOL_SOCKET, SCM_RIGHTS, payload.as_slice())
    }

    fn iov(&self, i: usize) -> (iov: Option<IoBuf>)
        ensures
            iov == if i < self.bufs().len() {
                Some(self.bufs()[i as int])
            } else {
                None
            },
    {
        if i >= self.iov.len() {
            return None;
        }
        Some(self.iov[i])
    }

    fn iov_len(&self) -> (n: usize)
        ensures
            n == self.bufs().len(),
            n <= MAX_IOV_CAP,
    {
        proof {
            use_type_invariant(self);
        }
        self.iov.len()
    }

    fn ctrl(&self) -> (control: &Vec<u8>)
        ensures
            control@ == self.control(),
            control@.len() <= MAX_CTRL_CAP,
    {
        proof {
            use_type_invariant(self);
        }
        &self.ctrl
    }

    fn take_iov(&mut self) -> (all: Vec<IoBuf>)
        ensures
            all@ == old(self).bufs(),
            final(self).bufs() == Seq::<IoBuf>::empty(),
            final(self).control() == old(self).control(),
    {
        proof {
            use_type_invariant(&*self);
        }
        let mut all: Vec<IoBuf> = Vec::new();
        core::mem::swap(&mut all, &mut self.iov);
        all
    }

    /// Takes in what the kernel reported as control data, as much as there is
    /// room for.
    fn receive(&mut self, control: &[u8])
        ensures
            final(self).bufs() == old(self).bufs(),
            final(self).control() == if control@.len() <= MAX_CTRL_CAP {
                control@
            } else {
                control@.take(MAX_CTRL_CAP as int)
            },
    {
        proof {
            use_type_invariant(&*self);
        }
        let n: usize = if control.len() <= MAX_CTRL_CAP {
            control.len()
        } else {
            MAX_CTRL_CAP
        };
        let kept: Vec<u8> = crate::lines::copy_range(control, 0, n);
        assert(n == control@.len() ==> control@.subrange(0, n as int) =~= control@);
        self.ctrl = kept;
    }
}

/// The pooled slots of a message's arguments.
pub struct MsgSlots {
    msg: RefMut<u8>,
    iov: RefMut<u8>,
    ctrl: RefMut<u8>,
}

/// The three slots were taken one after the other.
pub open spec fn slots_taken(
    before: Buffers,
    after: Buffers,
    msg: Handle,
    iov: Handle,
    ctrl: Handle,
) -> bool {
    exists|b1: Buffers, b2: Buffers|
        {
            &&& #[trigger] Buffers::allocated(&before, &b1, MSGHDR_LEN as int, msg, -1)
            &&& #[trigger] Buffers::allocated(&b1, &b2, IOV_ARRAY_LEN as int, iov, -1)
            &&& Buffers::allocated(&b2, &after, MAX_CTRL_CAP as int, ctrl, -1)
        }
}

/// One of the three slots is not to be had.
pub open spec fn slots_lacking(b: Buffers) -> bool {
    ||| b.exhausted(MSGHDR_LEN as int)
    ||| exists|b1: Buffers, msg: Handle| #[trigger]
        Buffers::allocated(&b, &b1, MSGHDR_LEN as int, msg, -1) && b1.exhausted(
            IOV_ARRAY_LEN as int,
        )
    ||| exists|b1: Buffers, b2: Buffers, msg: Handle, iov: Handle|
        {
            &&& #[trigger] Buffers::allocated(&b, &b1, MSGHDR_LEN as int, msg, -1)
            &&& #[trigger] Buffers::allocated(&b1, &b2, IOV_ARRAY_LEN as int, iov, -1)
            &&& b2.exhausted(MAX_CTRL_CAP as int)
        }
}

/// Nothing was kept: every slot is held as it was, and slots are handed out as
/// before.
pub open spec fn unheld(before: Buffers, after: Buffers) -> bool {
    &&& after.same_layout(&before)
    &&& after.memory_view() == before.memory_view()
    &&& after.provided_slabs() == before.provided_slabs()
    &&& after.counts(false) == before.counts(false)
    &&& forall|i: int|
        0 <= i < before.fixed_slabs().len() ==> (
        #[trigger] after.fixed_slabs()[i]).free_stack() == before.fixed_slabs()[i].free_stack()
}

/// The three slots are different ones, each held exclusively, if they are of
/// this run.
pub open spec fn slots_held(b: Buffers, msg: Handle, iov: Handle, ctrl: Handle) -> bool {
    &&& msg.generation == iov.generation == ctrl.generation
    &&& !msg.provided && !iov.provided && !ctrl.provided
    &&& msg.bid != iov.bid && msg.bid != ctrl.bid && iov.bid != ctrl.bid
    &&& b.live(msg) ==> b.knows(msg) && b.count_at(msg) < 0
    &&& b.live(iov) ==> b.knows(iov) && b.count_at(iov) < 0
    &&& b.live(ctrl) ==> b.knows(ctrl) && b.count_at(ctrl) < 0
}

/// Each of the three slots lost one view, in turn, if they are of this run.
pub open spec fn slots_released(
    before: Buffers,
    after: Buffers,
    msg: Handle,
    iov: Handle,
    ctrl: Handle,
) -> bool {
    if before.live(msg) {
        exists|b1: Buffers, b2: Buffers|
            {
                &&& #[trigger] Buffers::dropped(&before, &b1, ctrl, before.count_at(ctrl) + 1)
                &&& #[trigger] Buffers::dropped(&b1, &b2, iov, before.count_at(iov) + 1)
                &&& Buffers::dropped(&b2, &after, msg, before.count_at(msg) + 1)
            }
    } else {
        after == before
    }
}

impl MsgSlots {
    pub closed spec fn places(&self) -> (Handle, Handle, Handle) {
        (self.msg@, self.iov@, self.ctrl@)
    }

    fn take(b: &mut Buffers) -> (slots: Option<MsgSlots>)
        requires
            old(b).wf(),
        ensures
            final(b).wf(),
            match slots {
                Some(s) => slots_taken(
                    *old(b),
                    *final(b),
                    s.places().0,
                    s.places().1,
                    s.places().2,
                ),
                None => slots_lacking(*old(b)) && unheld(*old(b), *final(b)),
            },
    {
        let ghost b0 = *b;
        let msg: Handle = match b.take_fixed(MSGHDR_LEN, true) {
            Some(at) => at,
            None => return None,
        };
        let ghost b1 = *b;
        let iov: Handle = match b.take_fixed(IOV_ARRAY_LEN, true) {
            Some(at) => at,
            None => {
                b.drop_view(msg, true);
                assert(unheld(b0, *b)) by {
                    lemma_unheld_itself(b1);
                    lemma_numbered(b0);
                    lemma_given_back(b0, b1, b1, *b, MSGHDR_LEN as int, msg);
                }
                return None;
            },
        };
        let ghost b2 = *b;
        let ctrl: Handle = match b.take_fixed(MAX_CTRL_CAP, true) {
            Some(at) => at,
            None => {
                b.drop_view(iov, true);
                let ghost b3 = *b;
                proof {
                    lemma_unheld_itself(b2);
                    lemma_numbered(b0);
                    lemma_numbered(b1);
                    lemma_given_back(b1, b2, b2, b3, IOV_ARRAY_LEN as int, iov);
                }
                b.drop_view(msg, true);
                assert(unheld(b0, *b)) by {
                    lemma_given_back(b0, b1, b3, *b, MSGHDR_LEN as int, msg);
                }
                return None;
            },
        };
        Some(MsgSlots { msg: RefMut::new(msg), iov: RefMut::new(iov), ctrl: RefMut::new(ctrl) })
    }

    fn release(self, b: &mut Buffers)
        requires
            old(b).wf(),
            slots_held(*old(b), self.places().0, self.places().1, self.places().2),
        ensures
            final(b).wf(),
            slots_released(
                *old(b),
                *final(b),
                self.places().0,
                self.places().1,
                self.places().2,
            ),
    {
        let msg: Handle = self.msg.handle();
        let iov: Handle = self.iov.handle();
        let ctrl: Handle = self.ctrl.handle();
        let ghost b0 = *b;
        b.drop_view(ctrl, true);
        let ghost b1 = *b;
        proof {
            if b0.live(msg) {
                lemma_other_slot(b0, b1, ctrl, b0.count_at(ctrl) + 1, iov);
                lemma_other_slot(b0, b1, ctrl, b0.count_at(ctrl) + 1, msg);
            }
        }
        b.drop_view(iov, true);
        let ghost b2 = *b;
        proof {
            if b0.live(msg) {
                lemma_other_slot(b1, b2, iov, b0.count_at(iov) + 1, msg);
            }
        }
        b.drop_view(msg, true);
    }
}

/// Every free slot has a number that a handle can hold.
spec fn numbered(b: Buffers) -> bool {
    &&& b.fixed_slabs().len() <= 256
    &&& forall|i: int, k: int|
        0 <= i < b.fixed_slabs().len() && 0 <= k < b.fixed_slabs()[i].free_stack().len()
            ==> #[trigger] b.fixed_slabs()[i].free_stack()[k] <= classes::BID_LOCAL_MASK
}

proof fn lemma_numbered(b: Buffers)
    requires
        b.wf(),
    ensures
        numbered(b),
{
    assert forall|i: int, k: int|
        0 <= i < b.fixed_slabs().len() && 0 <= k
            < b.fixed_slabs()[i].free_stack().len() implies #[trigger] b.fixed_slabs()[i].free_stack()[k]
        <= classes::BID_LOCAL_MASK by {
        b.fixed_slabs()[i].free_slots_exist();
    }
}

proof fn lemma_still_numbered(b0: Buffers, b1: Buffers, size: int, at: Handle)
    requires
        numbered(b0),
        Buffers::allocated(&b0, &b1, size, at, -1),
    ensures
        numbered(b1),
{
    let class = (at.bid >> 24) as int;
    assert forall|i: int, k: int|
        0 <= i < b1.fixed_slabs().len() && 0 <= k
            < b1.fixed_slabs()[i].free_stack().len() implies #[trigger] b1.fixed_slabs()[i].free_stack()[k]
        <= classes::BID_LOCAL_MASK by {
        assert(b1.fixed_slabs()[i].free_stack()[k] == b0.fixed_slabs()[i].free_stack()[k]);
    }
}

/// A slot that was taken and given back is held as before, also when what
/// happened meanwhile was undone.
proof fn lemma_given_back(
    b0: Buffers,
    b1: Buffers,
    b2: Buffers,
    b3: Buffers,
    size: int,
    at: Handle,
)
    requires
        numbered(b0),
        Buffers::allocated(&b0, &b1, size, at, -1),
        unheld(b1, b2),
        Buffers::dropped(&b2, &b3, at, 0),
    ensures
        unheld(b0, b3),
{
    let class = (at.bid >> 24) as int;
    let local = (at.bid & 0x00FF_FFFF) as int;
    let c0 = b0.counts(false);
    let free = b0.fixed_slabs()[class].free_stack();
    assert(c0[class].update(local, -1i32).update(local, 0i32) =~= c0[class]);
    assert(c0.update(class, c0[class].update(local, -1i32)).update(class, c0[class]) =~= c0);
    assert(b3.counts(false) == c0);
    assert(free[free.len() - 1] <= classes::BID_LOCAL_MASK);
    classes::packed_bid_unpacks(class as u32, free.last());
    assert forall|i: int| 0 <= i < b0.fixed_slabs().len() implies (
    #[trigger] b3.fixed_slabs()[i]).free_stack() == b0.fixed_slabs()[i].free_stack() by {
        assert(b2.fixed_slabs()[i].free_stack() == b1.fixed_slabs()[i].free_stack());
        if i == class {
            assert(free.drop_last().push(free.last()) =~= free);
        }
    }
}

proof fn lemma_unheld_itself(b: Buffers)
    ensures
        unheld(b, b),
{
}

/// Counting views of one slot leaves every other slot's count.
proof fn lemma_other_slot(b0: Buffers, b1: Buffers, at: Handle, count: int, other: Handle)
    requires
        b0.knows(at),
        b0.knows(other),
        Buffers::recounted(&b0, &b1, at, count),
        at.provided == other.provided,
        at.bid != other.bid,
    ensures
        b1.knows(other),
        b1.count_at(other) == b0.count_at(other),
{
    let class = (at.bid >> 24) as int;
    let k = (other.bid >> 24) as int;
    let local = (at.bid & 0x00FF_FFFF) as int;
    classes::unpacked_bid_packs(at.bid);
    classes::unpacked_bid_packs(other.bid);
    assert(b1.counts(at.provided)[k] == if k == class {
        b0.counts(at.provided)[class].update(local, count as i32)
    } else {
        b0.counts(at.provided)[k]
    });
    if other.provided {
        assert(b1.provided_slabs()[k].shape() == b0.provided_slabs()[k].shape());
    } else {
        assert(b1.fixed_slabs()[k].shape() == b0.fixed_slabs()[k].shape());
    }
}

/// The slots of a new message are held by it alone, so it can give them back,
/// and the slot for its control bytes holds the most that there can be.
pub proof fn new_message_holds_its_slots(
    before: Buffers,
    after: Buffers,
    msg: Handle,
    iov: Handle,
    ctrl: Handle,
)
    requires
        before.wf(),
        slots_taken(before, after, msg, iov, ctrl),
    ensures
        slots_held(after, msg, iov, ctrl),
        after.live(ctrl) && after.covers(Span { at: ctrl, len: MAX_CTRL_CAP as u32 }),
{
    classes::lemma_first_fit(before.fixed_classes(), MAX_CTRL_CAP as int);
    let (b1, b2) = choose|b1: Buffers, b2: Buffers|
        {
            &&& #[trigger] Buffers::allocated(&before, &b1, MSGHDR_LEN as int, msg, -1)
            &&& #[trigger] Buffers::allocated(&b1, &b2, IOV_ARRAY_LEN as int, iov, -1)
            &&& Buffers::allocated(&b2, &after, MAX_CTRL_CAP as int, ctrl, -1)
        };
    lemma_now_held(before, b1, msg);
    lemma_now_held(b1, b2, iov);
    lemma_now_held(b2, after, ctrl);
    assert(msg.bid != iov.bid);
    lemma_other_slot(b1, b2, iov, -1, msg);
    assert(msg.bid != ctrl.bid && iov.bid != ctrl.bid);
    lemma_other_slot(b2, after, ctrl, -1, msg);
    lemma_other_slot(b2, after, ctrl, -1, iov);
}

/// A message that is released leaves the buffers as they were before it was
/// made.
pub proof fn released_message_leaves_nothing(
    before: Buffers,
    during: Buffers,
    after: Buffers,
    msg: Handle,
    iov: Handle,
    ctrl: Handle,
)
    requires
        before.wf(),
        slots_taken(before, during, msg, iov, ctrl),
        slots_released(during, after, msg, iov, ctrl),
    ensures
        unheld(before, after),
{
    let (b1, b2) = choose|b1: Buffers, b2: Buffers|
        {
            &&& #[trigger] Buffers::allocated(&before, &b1, MSGHDR_LEN as int, msg, -1)
            &&& #[trigger] Buffers::allocated(&b1, &b2, IOV_ARRAY_LEN as int, iov, -1)
            &&& Buffers::allocated(&b2, &during, MAX_CTRL_CAP as int, ctrl, -1)
        };
    lemma_now_held(before, b1, msg);
    lemma_now_held(b1, b2, iov);
    lemma_now_held(b2, during, ctrl);
    lemma_other_slot(b1, b2, iov, -1, msg);
    lemma_other_slot(b2, during, ctrl, -1, msg);
    lemma_other_slot(b2, during, ctrl, -1, iov);
    let (x1, x2) = choose|x1: Buffers, x2: Buffers|
        {
            &&& #[trigger] Buffers::dropped(&during, &x1, ctrl, during.count_at(ctrl) + 1)
            &&& #[trigger] Buffers::dropped(&x1, &x2, iov, during.count_at(iov) + 1)
            &&& Buffers::dropped(&x2, &after, msg, during.count_at(msg) + 1)
        };
    lemma_numbered(before);
    lemma_still_numbered(before, b1, MSGHDR_LEN as int, msg);
    lemma_still_numbered(b1, b2, IOV_ARRAY_LEN as int, iov);
    lemma_unheld_itself(during);
    lemma_given_back(b2, during, during, x1, MAX_CTRL_CAP as int, ctrl);
    lemma_given_back(b1, b2, x1, x2, IOV_ARRAY_LEN as int, iov);
    lemma_given_back(before, b1, x2, after, MSGHDR_LEN as int, msg);
}

proof fn lemma_now_held(b0: Buffers, b1: Buffers, at: Handle)
    requires
        b0.knows(at),
        !at.provided,
        Buffers::recounted(&b0, &b1, at, -1),
    ensures
        b1.knows(at),
        b1.count_at(at) == -1,
{
    let class = (at.bid >> 24) as int;
    let local = (at.bid & 0x00FF_FFFF) as int;
    assert(b1.counts(false)[class] == b0.counts(false)[class].update(local, -1i32));
    assert(b1.fixed_slabs()[class].shape() == b0.fixed_slabs()[class].shape());
}

/// The arguments of a send, and the slots that are held for them while the
/// message is reused.
pub struct Msg {
    slots: MsgSlots,
    parts: Parts,
}

impl Msg {
    /// The slots for the header, the array of buffers and the control bytes.
    pub closed spec fn places(&self) -> (Handle, Handle, Handle) {
        self.slots.places()
    }

    pub closed spec fn bufs(&self) -> Seq<IoBuf> {
        self.parts.bufs()
    }

    pub closed spec fn control(&self) -> Seq<u8> {
        self.parts.control()
    }

    /// An empty message. Nothing when the pool has no slots for it.
    pub fn new(b: &mut Buffers) -> (msg: Option<Self>)
        requires
            old(b).wf(),
        ensures
            final(b).wf(),
            match msg {
                Some(m) => {
                    &&& slots_taken(
                        *old(b),
                        *final(b),
                        m.places().0,
                        m.places().1,
                        m.places().2,
                    )
                    &&& m.bufs() == Seq::<IoBuf>::empty()
                    &&& m.control() == Seq::<u8>::empty()
                },
                None => slots_lacking(*old(b)) && unheld(*old(b), *final(b)),
            },
    {
        match MsgSlots::take(b) {
            Some(slots) => Some(Msg { slots, parts: Parts::new() }),
            None => None,
        }
    }

    /// Gives the slots back.
    pub fn release(self, b: &mut Buffers)
        requires
            old(b).wf(),
            slots_held(*old(b), self.places().0, self.places().1, self.places().2),
        ensures
            final(b).wf(),
            slots_released(
                *old(b),
                *final(b),
                self.places().0,
                self.places().1,
                self.places().2,
            ),
    {
        self.slots.release(b);
    }

    /// Appends a buffer. False when the message has all it can take.
    pub fn push_iov(&mut self, iov: IoBuf) -> (pushed: bool)
        ensures
            pushed == (old(self).bufs().len() < MAX_IOV_CAP),
            final(self).bufs() == if pushed {
                old(self).bufs().push(iov)
            } else {
                old(self).bufs()
            },
            final(self).control() == old(self).control(),
            final(self).places() == old(self).places(),
    {
        self.parts.push_iov(iov)
    }

    /// The buffer at place `i`.
    pub fn iov(&self, i: usize) -> (iov: Option<IoBuf>)
        ensures
            iov == if i < self.bufs().len() {
                Some(self.bufs()[i as int])
            } else {
                None
            },
    {
        self.parts.iov(i)
    }

    /// How many buffers there are.
    pub fn iov_len(&self) -> (n: usize)
        ensures
            n == self.bufs().len(),
            n <= MAX_IOV_CAP,
    {
        self.parts.iov_len()
    }

    /// The control bytes.
    pub fn ctrl(&self) -> (control: &Vec<u8>)
        ensures
            control@ == self.control(),
            control@.len() <= MAX_CTRL_CAP,
    {
        self.parts.ctrl()
    }

    /// Puts the control bytes into the slot that is held for them. Where in
    /// memory that is comes back.
    pub fn place_ctrl(&self, b: &mut Buffers) -> (start: usize)
        requires
            old(b).wf(),
            old(b).live(self.places().2),
            old(b).covers(Span { at: self.places().2, len: MAX_CTRL_CAP as u32 }),
        ensures
            final(b).wf(),
            start == old(b).place_of(self.places().2),
            final(b).same_layout(&*old(b)),
            final(b).provided_slabs() == old(b).provided_slabs(),
            final(b).fixed_slabs() == old(b).fixed_slabs(),
            final(b).memory_view() == old(b).memory_view().take(start as int) + self.control()
                + old(b).memory_view().skip(start + self.control().len()),
            final(b).bytes_of(
                Span { at: self.places().2, len: self.control().len() as u32 },
            ) == self.control(),
    {
        let control: &Vec<u8> = self.parts.ctrl();
        proof {
            b.lemma_covers(Span { at: self.places().2, len: MAX_CTRL_CAP as u32 });
        }
        let start: usize = b.resolve(self.slots.ctrl.handle());
        b.write_at(start, control.as_slice());
        assert(b.bytes_of(
            Span { at: self.places().2, len: self.control().len() as u32 },
        ) =~= self.control());
        start
    }

    /// Appends a control message. False when there is no room for it.
    pub fn push_cmsg(&mut self, level: i32, kind: i32, payload: &[u8]) -> (pushed: bool)
        ensures
            pushed == (old(self).control().len() + space_of(payload@.len() as int)
                <= MAX_CTRL_CAP),
            final(self).control() == if pushed {
                old(self).control() + cmsg_bytes(level, kind, payload@)
            } else {
                old(self).control()
            },
            final(self).bufs() == old(self).bufs(),
            final(self).places() == old(self).places(),
    {
        self.parts.push_cmsg(level, kind, payload)
    }

    /// Appends a control message that passes descriptors. False when there is
    /// no room for it.
    pub fn push_scm_rights(&mut self, fds: &[i32]) -> (pushed: bool)
        ensures
            pushed == (old(self).control().len() + space_of(rights_payload(fds@).len() as int)
                <= MAX_CTRL_CAP),
            final(self).control() == if pushed {
                old(self).control() + cmsg_bytes(SOL_SOCKET, SCM_RIGHTS, rights_payload(fds@))
            } else {
                old(self).control()
            },
            final(self).bufs() == old(self).bufs(),
            final(self).places() == old(self).places(),
    {
        self.parts.push_scm_rights(fds)
    }

    /// Empties the message, to be filled again.
    pub fn clear(&mut self)
        ensures
            final(self).bufs() == Seq::<IoBuf>::empty(),
            final(self).control() == Seq::<u8>::empty(),
            final(self).places() == old(self).places(),
    {
        self.parts = Parts::new();
    }
}

/// The arguments of a receive, and the slots that are held for them: the
/// buffers that are offered to the kernel, and the control bytes that it
/// reported.
pub struct MsgMut {
    slots: MsgSlots,
    parts: Parts,
}

impl MsgMut {
    /// The slots for the header, the array of buffers and the control bytes.
    pub closed spec fn places(&self) -> (Handle, Handle, Handle) {
        self.slots.places()
    }

    pub closed spec fn bufs(&self) -> Seq<IoBuf> {
        self.parts.bufs()
    }

    pub closed spec fn control(&self) -> Seq<u8> {
        self.parts.control()
    }

    /// An empty message. Nothing when the pool has no slots for it.
    pub fn new(b: &mut Buffers) -> (msg: Option<Self>)
        requires
            old(b).wf(),
        ensures
            final(b).wf(),
            match msg {
                Some(m) => {
                    &&& slots_taken(
                        *old(b),
                        *final(b),
                        m.places().0,
                        m.places().1,
                        m.places().2,
                    )
                    &&& m.bufs() == Seq::<IoBuf>::empty()
                    &&& m.control() == Seq::<u8>::empty()
                },
                None => slots_lacking(*old(b)) && unheld(*old(b), *final(b)),
            },
    {
        match MsgSlots::take(b) {
            Some(slots) => Some(MsgMut { slots, parts: Parts::new() }),
            None => None,
        }
    }

    /// Gives the slots back.
    pub fn release(self, b: &mut Buffers)
        requires
            old(b).wf(),
            slots_held(*old(b), self.places().0, self.places().1, self.places().2),
        ensures
            final(b).wf(),
            slots_released(
                *old(b),
                *final(b),
                self.places().0,
                self.places().1,
                self.places().2,
            ),
    {
        self.slots.release(b);
    }

    /// Appends a buffer. False when the message has all it can take.
    pub fn push_iov(&mut self, iov: IoBuf) -> (pushed: bool)
        ensures
            pushed == (old(self).bufs().len() < MAX_IOV_CAP),
            final(self).bufs() == if pushed {
                old(self).bufs().push(iov)
            } else {
                old(self).bufs()
            },
            final(self).control() == old(self).control(),
            final(self).places() == old(self).places(),
    {
        self.parts.push_iov(iov)
    }

    /// The buffer at place `i`.
    pub fn iov(&self, i: usize) -> (iov: Option<IoBuf>)
        ensures
            iov == if i < self.bufs().len() {
                Some(self.bufs()[i as int])
            } else {
                None
            },
    {
        self.parts.iov(i)
    }

    /// How many buffers there are.
    pub fn iov_len(&self) -> (n: usize)
        ensures
            n == self.bufs().len(),
            n <= MAX_IOV_CAP,
    {
        self.parts.iov_len()
    }

    /// The control bytes.
    pub fn ctrl(&self) -> (control: &Vec<u8>)
        ensures
            control@ == self.control(),
            control@.len() <= MAX_CTRL_CAP,
    {
        self.parts.ctrl()
    }

    /// How many control bytes the kernel may fill in.
    pub fn control_capacity(&self) -> (n: usize)
        ensures
            n == MAX_CTRL_CAP,
    {
        MAX_CTRL_CAP
    }

    /// Takes in the control bytes that the kernel reported.
    pub fn received(&mut self, control: &[u8])
        ensures
            final(self).bufs() == old(self).bufs(),
            final(self).control() == if control@.len() <= MAX_CTRL_CAP {
                control@
            } else {
                control@.take(MAX_CTRL_CAP as int)
            },
            final(self).places() == old(self).places(),
    {
        self.parts.receive(control);
    }

    /// Takes the buffers out; none are left to offer.
    pub fn take_iov(&mut self) -> (all: Vec<IoBuf>)
        ensures
            all@ == old(self).bufs(),
            final(self).bufs() == Seq::<IoBuf>::empty(),
            final(self).control() == old(self).control(),
            final(self).places() == old(self).places(),
    {
        self.parts.take_iov()
    }
}

/// Rounding up to eight gives the next multiple of eight.
pub proof fn rounding_gives_the_next_multiple(n: int)
    ensures
        aligned8(n) % 8 == 0,
        n <= aligned8(n) < n + 8,
        space_of(n) == 16 + aligned8(n),
{
}

/// Bytes stand lowest first.
pub proof fn lowest_byte_stands_first(x: int, n: nat)
    requires
        x >= 0,
    ensures
        n >= 4 ==> {
            let s = le_bytes(x, n);
            &&& s[0] == x % 256
            &&& s[1] == x / 256 % 256
            &&& s[2] == x / 65536 % 256
            &&& s[3] == x / 16777216 % 256
        },
        le_bytes(x, n).len() == n,
{
    lemma_le_bytes_len(x, n);
    if n >= 4 {
        let s = le_bytes(x, n);
        let s1 = le_bytes(x / 256, (n - 1) as nat);
        let s2 = le_bytes(x / 256 / 256, (n - 2) as nat);
        let s3 = le_bytes(x / 256 / 256 / 256, (n - 3) as nat);
        lemma_le_bytes_len(x / 256, (n - 1) as nat);
        lemma_le_bytes_len(x / 256 / 256, (n - 2) as nat);
        lemma_le_bytes_len(x / 256 / 256 / 256, (n - 3) as nat);
        assert(s[0] == (x % 256) as u8);
        assert(s[1] == s1[0]);
        assert(s1[0] == (x / 256 % 256) as u8);
        assert(s[2] == s1[1] && s1[1] == s2[0]);
        assert(s[3] == s1[2] && s1[2] == s2[1] && s2[1] == s3[0]);
        assert(x / 256 / 256 == x / 65536);
        assert(x / 256 / 256 / 256 == x / 16777216);
    }
}

/// Four bytes are read with the lowest first.
pub proof fn four_bytes_are_a_word(s: Seq<u8>)
    requires
        s.len() == 4,
    ensures
        le_value(s) == s[0] + 256 * s[1] + 65536 * s[2] + 16777216 * s[3],
{
    let a = s.skip(1);
    let b = a.skip(1);
    let c = b.skip(1);
    assert(c.skip(1).len() == 0);
    assert(le_value(c) == c[0] + 256 * le_value(c.skip(1)));
    assert(le_value(b) == b[0] + 256 * le_value(c));
    assert(le_value(a) == a[0] + 256 * le_value(b));
}

/// A number and its two's complement differ by a multiple of 4294967296.
pub proof fn word_is_twos_complement(x: i32)
    ensures
        0 <= word_of(x) <= 0xffff_ffff,
        word_of(x) % 4294967296 == x as int % 4294967296,
{
}

/// A control message is laid out as the kernel reads it: its length with the
/// header and without padding in eight bytes, level and kind in four each, then
/// the payload, and zeros up to the next multiple of eight.
pub proof fn control_message_layout(level: i32, kind: i32, payload: Seq<u8>)
    requires
        payload.len() < 0x1_0000_0000,
    ensures
        ({
            let m = cmsg_bytes(level, kind, payload);
            &&& m.len() == 16 + aligned8(payload.len() as int)
            &&& le_value(m.subrange(0, 8)) == 16 + payload.len()
            &&& le_value(m.subrange(8, 12)) == word_of(level)
            &&& le_value(m.subrange(12, 16)) == word_of(kind)
            &&& m.subrange(16, 16 + payload.len() as int) == payload
            &&& forall|i: int| 16 + payload.len() <= i < m.len() ==> #[trigger] m[i] == 0
        }),
{
    let m = cmsg_bytes(level, kind, payload);
    lemma_cmsg_len(level, kind, payload);
    let n = CMSG_HDR_LEN + payload.len();
    lemma_le_bytes_len(n, 8);
    lemma_le_bytes_len(word_of(level), 4);
    lemma_le_bytes_len(word_of(kind), 4);
    assert(m.subrange(0, 8) =~= le_bytes(n, 8));
    assert(m.subrange(8, 12) =~= le_bytes(word_of(level), 4));
    assert(m.subrange(12, 16) =~= le_bytes(word_of(kind), 4));
    assert(m.subrange(16, 16 + payload.len() as int) =~= payload);
    reveal_with_fuel(vstd::arithmetic::power::pow, 9);
    assert(vstd::arithmetic::power::pow(256, 4) == 0x1_0000_0000);
    assert(vstd::arithmetic::power::pow(256, 8) == 0x1_0000_0000_0000_0000);
    le_bytes_read_back(n, 8);
    le_bytes_read_back(word_of(level), 4);
    le_bytes_read_back(word_of(kind), 4);
}

/// Each passed descriptor has four bytes of its own, in order.
pub proof fn each_descriptor_is_passed(fds: Seq<i32>, i: int)
    requires
        0 <= i < fds.len(),
    ensures
        rights_payload(fds).len() == 4 * fds.len(),
        le_value(rights_payload(fds).subrange(4 * i, 4 * i + 4)) == word_of(fds[i]),
    decreases fds.len(),
{
    lemma_rights_len(fds);
    let rest = fds.drop_last();
    lemma_rights_len(rest);
    let all = rights_payload(fds);
    let part = all.subrange(4 * i, 4 * i + 4);
    if i < rest.len() {
        each_descriptor_is_passed(rest, i);
        assert(part =~= rights_payload(rest).subrange(4 * i, 4 * i + 4));
    } else {
        lemma_le_bytes_len(word_of(fds.last()), 4);
        assert(part =~= le_bytes(word_of(fds.last()), 4));
        reveal_with_fuel(vstd::arithmetic::power::pow, 5);
        assert(vstd::arithmetic::power::pow(256, 4) == 0x1_0000_0000);
        le_bytes_read_back(word_of(fds.last()), 4);
    }
}

/// What the kernel takes in one message, and how large its arguments are.
pub proof fn message_limits()
    ensures
        MAX_IOV_CAP == 1024 && SCM_MAX_FD == 253 && MAX_CTRL_CAP == 1032,
        CMSG_HDR_LEN == 16 && MSGHDR_LEN == 56 && IOV_ARRAY_LEN == 16 * 1024,
        SOL_SOCKET == 1 && SCM_RIGHTS == 1,
{
}

/// A message is to be had as long as every class that it takes a slot from has
/// three of them free.
pub proof fn message_is_had_while_slots_are_free(b: Buffers)
    requires
        b.wf(),
        forall|size: int|
            #![trigger classes::first_fit(b.fixed_classes(), size)]
            size == 56 || size == 16384 || size == 1032 ==> {
                let class = classes::first_fit(b.fixed_classes(), size);
                class < b.fixed_slabs().len() && b.fixed_slabs()[class].free_stack().len() >= 3
            },
    ensures
        !slots_lacking(b),
{
    classes::lemma_first_fit(b.fixed_classes(), 56);
    classes::lemma_first_fit(b.fixed_classes(), 16384);
    classes::lemma_first_fit(b.fixed_classes(), 1032);
    assert forall|b1: Buffers, msg: Handle| #[trigger]
        Buffers::allocated(&b, &b1, MSGHDR_LEN as int, msg, -1) implies !b1.exhausted(
        IOV_ARRAY_LEN as int,
    ) by {
        let c = classes::first_fit(b.fixed_classes(), 16384);
        assert(b1.fixed_classes() == b.fixed_classes());
        assert(b1.fixed_slabs().len() == b.fixed_slabs().len());
        assert(b1.fixed_slabs()[c].free_stack().len() >= 2);
    }
    assert forall|b1: Buffers, b2: Buffers, msg: Handle, iov: Handle|
        #[trigger] Buffers::allocated(&b, &b1, MSGHDR_LEN as int, msg, -1)
            && #[trigger] Buffers::allocated(&b1, &b2, IOV_ARRAY_LEN as int, iov, -1) implies !b2.exhausted(
        MAX_CTRL_CAP as int,
    ) by {
        let c = classes::first_fit(b.fixed_classes(), 1032);
        assert(b1.fixed_classes() == b.fixed_classes());
        assert(b2.fixed_classes() == b.fixed_classes());
        assert(b1.fixed_slabs()[c].free_stack().len() >= 2);
        assert(b2.fixed_slabs()[c].free_stack().len() >= 1);
    }
}

/// A message that holds its slots holds three different ones, each of them for
/// itself.
pub proof fn held_slots_are_exclusive(b: Buffers, msg: Handle, iov: Handle, ctrl: Handle)
    requires
        slots_held(b, msg, iov, ctrl),
    ensures
        msg.bid != iov.bid && iov.bid != ctrl.bid && ctrl.bid != msg.bid,
        b.live(msg) ==> b.count_at(msg) < 0 && b.count_at(iov) < 0 && b.count_at(ctrl) < 0,
        b.live(msg) == b.live(iov) && b.live(iov) == b.live(ctrl),
{
}

/// Where nothing was kept, every slot is held as it was, no byte changed, and
/// the same slots are handed out next.
pub proof fn nothing_kept_means_as_before(before: Buffers, after: Buffers, class: int)
    requires
        unheld(before, after),
        0 <= class < before.fixed_slabs().len(),
    ensures
        after.memory_view() == before.memory_view(),
        after.counts(false) == before.counts(false),
        after.provided_slabs() == before.provided_slabs(),
        after.fixed_slabs()[class].free_stack() == before.fixed_slabs()[class].free_stack(),
        after.generation_view() == before.generation_view(),
{
}

/// The slots of a message are large enough for what they are for: 56 bytes of
/// header, 16384 of buffers and 1032 of control.
pub proof fn message_slots_are_large_enough(
    before: Buffers,
    after: Buffers,
    msg: Handle,
    iov: Handle,
    ctrl: Handle,
)
    requires
        before.wf(),
        slots_taken(before, after, msg, iov, ctrl),
    ensures
        after.shape_of(false, (msg.bid >> 24) as int).size >= 56,
        after.shape_of(false, (iov.bid >> 24) as int).size >= 16384,
        after.shape_of(false, (ctrl.bid >> 24) as int).size >= 1032,
        msg.offset == 0 && iov.offset == 0 && ctrl.offset == 0,
{
    classes::lemma_first_fit(before.fixed_classes(), 56);
    classes::lemma_first_fit(before.fixed_classes(), 16384);
    classes::lemma_first_fit(before.fixed_classes(), 1032);
    let (b1, b2) = choose|b1: Buffers, b2: Buffers|
        {
            &&& #[trigger] Buffers::allocated(&before, &b1, MSGHDR_LEN as int, msg, -1)
            &&& #[trigger] Buffers::allocated(&b1, &b2, IOV_ARRAY_LEN as int, iov, -1)
            &&& Buffers::allocated(&b2, &after, MAX_CTRL_CAP as int, ctrl, -1)
        };
    assert(b1.fixed_classes() == before.fixed_classes());
    assert(b2.fixed_classes() == before.fixed_classes());
}

} // verus!
