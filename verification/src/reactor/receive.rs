//! Receiving a datagram of unknown size: first its size is asked for, then it
//! is taken.

use vstd::prelude::*;

verus! {

/// Size of the receive buffer before any larger datagram came in.
pub const INITIAL_BUFFER: usize = 65536;

/// What the outstanding receive does.
#[derive(Clone, Copy, Debug, PartialEq, Eq, Structural)]
pub enum RecvPhase {
    /// It asks for the size and leaves the datagram in the queue.
    Peek,
    /// It takes the datagram.
    Consume,
}

/// What to do after a receive completed.
#[derive(Clone, Copy, Debug, PartialEq, Eq, Structural)]
pub enum ReceiveStep {
    /// Make the buffer `buffer` bytes long and take the datagram.
    Take { buffer: usize },
    /// The first `len` bytes of the buffer are a request. Answer it, then ask
    /// for the next size.
    Request { len: usize },
    /// Ask for the next size.
    Ask,
}

/// The datagram side of the reactor.
#[derive(Clone, Copy, Debug, PartialEq, Eq, Structural)]
pub struct Receiver {
    pub phase: RecvPhase,
    /// Length of the receive buffer.
    pub buffer: usize,
}

impl Receiver {
    /// The receiver after the outstanding receive came back with `ret`.
    pub open spec fn after(self, ret: i32) -> Receiver {
        match self.phase {
            RecvPhase::Peek => Receiver {
                phase: RecvPhase::Consume,
                buffer: if ret > self.buffer {
                    ret as usize
                } else {
                    self.buffer
                },
            },
            RecvPhase::Consume => Receiver { phase: RecvPhase::Peek, ..self },
        }
    }

    /// What to do after the outstanding receive came back with `ret`.
    pub open spec fn step(self, ret: i32) -> ReceiveStep {
        match self.phase {
            RecvPhase::Peek => ReceiveStep::Take { buffer: self.after(ret).buffer },
            RecvPhase::Consume => if ret >= 0 {
                ReceiveStep::Request { len: ret as usize }
            } else {
                ReceiveStep::Ask
            },
        }
    }

    pub fn new() -> (receiver: Self)
        ensures
            receiver == (Receiver { phase: RecvPhase::Peek, buffer: INITIAL_BUFFER }),
    {
        Receiver { phase: RecvPhase::Peek, buffer: INITIAL_BUFFER }
    }

    /// Handles the completion of a receive with result `ret`.
    pub fn handle_datagram_cqe(&mut self, ret: i32) -> (step: ReceiveStep)
        requires
            old(self).phase is Peek ==> 0 <= ret,
            old(self).phase is Consume ==> ret <= old(self).buffer,
        ensures
            *final(self) == old(self).after(ret),
            step == old(self).step(ret),
    {
        match self.phase {
            RecvPhase::Peek => {
                let size: usize = ret as usize;
                if size > self.buffer {
                    self.buffer = size;
                }
                self.phase = RecvPhase::Consume;
                ReceiveStep::Take { buffer: self.buffer }
            },
            RecvPhase::Consume => {
                self.phase = RecvPhase::Peek;
                if ret >= 0 {
                    ReceiveStep::Request { len: ret as usize }
                } else {
                    ReceiveStep::Ask
                }
            },
        }
    }
}

/// A datagram whose size was asked for fits the buffer that takes it, so no
/// byte of a request is cut off. The buffer never shrinks, and after the
/// datagram was taken the next size is asked for.
pub proof fn datagrams_fit_their_buffer(receiver: Receiver, size: i32, taken: i32)
    requires
        receiver.phase is Peek,
        0 <= size,
    ensures
        size <= receiver.after(size).buffer,
        receiver.buffer <= receiver.after(size).buffer,
        receiver.after(size).after(taken).phase is Peek,
        receiver.after(size).after(taken).buffer == receiver.after(size).buffer,
{
}

/// A datagram is taken whole: its size is asked for, then the buffer is made
/// large enough and the datagram taken, and what was taken is one request of
/// that length. A datagram that could not be taken is given up, and the next
/// size asked for. The buffer grows only to fit.
pub proof fn datagram_becomes_one_request(receiver: Receiver, size: i32, taken: i32)
    requires
        receiver.phase is Peek,
        0 <= size,
    ensures
        ({
            let taking = receiver.after(size);
            &&& taking.phase is Consume
            &&& receiver.step(size) == (ReceiveStep::Take { buffer: taking.buffer })
            &&& size <= receiver.buffer ==> taking.buffer == receiver.buffer
            &&& size > receiver.buffer ==> taking.buffer == size
            &&& 0 <= taken ==> taking.step(taken) == (ReceiveStep::Request {
                len: taken as usize,
            })
            &&& taken < 0 ==> taking.step(taken) is Ask
            &&& taking.after(taken) == (Receiver { phase: RecvPhase::Peek, ..taking })
        }),
{
}

/// A new receiver asks for a size first, and takes datagrams of up to 65536
/// bytes without a larger buffer.
pub proof fn small_datagrams_need_no_growth(size: i32)
    requires
        0 <= size <= 65536,
    ensures
        ({
            let receiver = Receiver { phase: RecvPhase::Peek, buffer: INITIAL_BUFFER };
            receiver.after(size).buffer == 65536
        }),
{
}

} // verus!
