//! What a handler asks to be done.

use vstd::prelude::*;

use crate::daemon;
use crate::reactor::route::Route;

verus! {

/// One thing to do. Operations that complete carry the route under which
/// their completion comes back.
pub enum Op {
    /// Start a read of up to `len` bytes.
    Read { fd: i32, len: usize, route: Route },
    /// Start a write of all of `bytes`.
    Write { fd: i32, bytes: Vec<u8>, route: Route },
    /// Write `bytes` before anything else happens; nothing comes back.
    Send { fd: i32, bytes: Vec<u8> },
    /// Start the message that carries descriptor `fd` to a follower.
    PassFd { fd: i32, route: Route },
    /// Start the next accept.
    Accept,
    /// Tell a PTY its size.
    Resize { fd: i32, rows: u16, cols: u16 },
    Close { fd: i32 },
}

/// An [`Op`] as the contracts speak of it.
pub enum Act {
    Read { fd: i32, len: usize, route: Route },
    Write { fd: i32, bytes: Seq<u8>, route: Route },
    Send { fd: i32, bytes: Seq<u8> },
    PassFd { fd: i32, route: Route },
    Accept,
    Resize { fd: i32, rows: u16, cols: u16 },
    Close { fd: i32 },
}

impl View for Op {
    type V = Act;

    open spec fn view(&self) -> Act {
        match *self {
            Op::Read { fd, len, route } => Act::Read { fd, len, route },
            Op::Write { fd, bytes, route } => Act::Write { fd, bytes: bytes@, route },
            Op::Send { fd, bytes } => Act::Send { fd, bytes: bytes@ },
            Op::PassFd { fd, route } => Act::PassFd { fd, route },
            Op::Accept => Act::Accept,
            Op::Resize { fd, rows, cols } => Act::Resize { fd, rows, cols },
            Op::Close { fd } => Act::Close { fd },
        }
    }
}

/// What a list of operations amounts to, in order.
pub open spec fn acts(ops: Seq<Op>) -> Seq<Act> {
    ops.map_values(|op: Op| op@)
}

/// Closing each of `fds`, in order.
pub open spec fn closes(fds: Seq<i32>) -> Seq<Act> {
    fds.map_values(|fd: i32| Act::Close { fd })
}

/// Adds `op` to the list.
pub(crate) fn push_op(ops: &mut Vec<Op>, op: Op)
    ensures
        acts(final(ops)@) == acts(old(ops)@).push(op@),
{
    let ghost act = op@;
    ops.push(op);
    assert(acts(ops@) =~= acts(old(ops)@).push(act));
}

/// Adds the closing of `fd` to the list, when it is open.
pub(crate) fn push_close(ops: &mut Vec<Op>, fd: i32)
    ensures
        acts(final(ops)@) == acts(old(ops)@) + closes(daemon::if_open(fd)),
{
    if fd >= 0 {
        push_op(ops, Op::Close { fd });
    }
    assert(acts(ops@) =~= acts(old(ops)@) + closes(daemon::if_open(fd)));
}

/// Adds the closing of each of `fds` to the list.
pub(crate) fn push_closes(ops: &mut Vec<Op>, fds: &Vec<i32>)
    ensures
        acts(final(ops)@) == acts(old(ops)@) + closes(fds@),
{
    let mut i: usize = 0;
    while i < fds.len()
        invariant
            i <= fds@.len(),
            acts(ops@) == acts(old(ops)@) + closes(fds@.take(i as int)),
        decreases fds@.len() - i,
    {
        push_op(ops, Op::Close { fd: fds[i] });
        i = i + 1;
        assert(acts(ops@) =~= acts(old(ops)@) + closes(fds@.take(i as int)));
    }
    assert(fds@.take(i as int) =~= fds@);
    assert(acts(ops@) =~= acts(old(ops)@) + closes(fds@));
}

/// Closing descriptors is one act for each, in order.
pub proof fn each_descriptor_is_closed(fds: Seq<i32>, i: int)
    requires
        0 <= i < fds.len(),
    ensures
        closes(fds).len() == fds.len(),
        closes(fds)[i] == (Act::Close { fd: fds[i] }),
{
}

/// Operations read as what they do, each in its place.
pub proof fn operations_read_as_acts(ops: Seq<Op>, i: int)
    requires
        0 <= i < ops.len(),
    ensures
        acts(ops).len() == ops.len(),
        ops[i] matches Op::Close { fd } ==> acts(ops)[i] == (Act::Close { fd }),
        ops[i] matches Op::Read { fd, len, route } ==> acts(ops)[i] == (Act::Read {
            fd,
            len,
            route,
        }),
        ops[i] matches Op::Write { fd, bytes, route } ==> acts(ops)[i] == (Act::Write {
            fd,
            bytes: bytes@,
            route,
        }),
        ops[i] matches Op::Send { fd, bytes } ==> acts(ops)[i] == (Act::Send { fd, bytes: bytes@ }),
        ops[i] matches Op::PassFd { fd, route } ==> acts(ops)[i] == (Act::PassFd { fd, route }),
        ops[i] is Accept ==> acts(ops)[i] is Accept,
        ops[i] matches Op::Resize { fd, rows, cols } ==> acts(ops)[i] == (Act::Resize {
            fd,
            rows,
            cols,
        }),
{
}

} // verus!
