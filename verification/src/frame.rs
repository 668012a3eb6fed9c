//! Frames of the attach stream: a type byte, the payload length as two
//! little-endian bytes, and the payload.

use vstd::prelude::*;

verus! {

/// Client to daemon: a run or attach request.
pub const FRAME_REQUEST: u8 = 0x00;

/// Daemon to client: the answer to a request.
pub const FRAME_RESPONSE: u8 = 0x01;

/// Daemon to client: the container's exit code.
pub const FRAME_EXIT: u8 = 0x02;

/// Either way: stdin or output bytes.
pub const FRAME_DATA: u8 = 0x10;

/// Client to daemon: stdin is at its end.
pub const FRAME_STDIN_EOF: u8 = 0x11;

/// Client to daemon: the terminal's size.
pub const FRAME_WINSIZE: u8 = 0x20;

/// Bytes before a frame's payload.
pub const HEADER_LEN: usize = 3;

/// The largest payload whose length the header can hold.
pub const MAX_PAYLOAD: usize = 65535;

/// The header of a frame whose payload has `len` bytes. The length is kept
/// modulo 65536.
pub open spec fn header_bytes(ty: u8, len: nat) -> Seq<u8> {
    seq![ty, (len % 256) as u8, (len / 256 % 256) as u8]
}

/// A whole frame.
pub open spec fn frame_bytes(ty: u8, payload: Seq<u8>) -> Seq<u8> {
    header_bytes(ty, payload.len()) + payload
}

/// The payload length that a header announces.
pub open spec fn payload_len(header: Seq<u8>) -> int {
    header[1] + 256 * header[2]
}

/// The bytes of the first frame still missing after `got`.
pub open spec fn missing(got: Seq<u8>) -> int {
    if got.len() < HEADER_LEN {
        HEADER_LEN - got.len()
    } else {
        HEADER_LEN + payload_len(got) - got.len()
    }
}

/// Whether `got` is exactly one frame.
pub open spec fn complete(got: Seq<u8>) -> bool {
    got.len() >= HEADER_LEN && got.len() == HEADER_LEN + payload_len(got)
}

/// Appends `more` to `out`.
pub fn append_bytes(out: &mut Vec<u8>, more: &[u8])
    ensures
        final(out)@ == old(out)@ + more@,
{
    out.extend_from_slice(more);
    assert(out@ =~= old(out)@ + more@);
}

/// Builds the frame of type `ty` around `payload`.
pub fn build_frame(ty: u8, payload: &[u8]) -> (frame: Vec<u8>)
    ensures
        frame@ == frame_bytes(ty, payload@),
{
    let len: usize = payload.len();
    let mut frame: Vec<u8> = Vec::new();
    frame.push(ty);
    frame.push((len % 256) as u8);
    frame.push((len / 256 % 256) as u8);
    assert(frame@ =~= header_bytes(ty, payload@.len()));
    append_bytes(&mut frame, payload);
    frame
}

/// What a frame reader or writer reports when the stream fails it.
#[derive(Clone, Copy, Debug, PartialEq, Eq, Structural)]
pub enum FrameError {
    /// The peer closed the stream inside a frame or before one.
    StreamClosed,
    /// Fewer bytes were written than the frame has.
    PartialWrite,
}

/// Judges the outcome of writing a frame of `frame_len` bytes at once.
pub fn check_written(frame_len: usize, written: usize) -> (res: Result<(), FrameError>)
    ensures
        res == if written == frame_len {
            Ok::<(), FrameError>(())
        } else {
            Err(FrameError::PartialWrite)
        },
{
    if written != frame_len {
        Err(FrameError::PartialWrite)
    } else {
        Ok(())
    }
}

/// Assembles one frame from the pieces that reads return.
pub struct FrameReader {
    got: Vec<u8>,
}

impl View for FrameReader {
    type V = Seq<u8>;

    /// The bytes read so far.
    closed spec fn view(&self) -> Seq<u8> {
        self.got@
    }
}

impl FrameReader {
    /// No more than one frame was read.
    pub open spec fn wf(&self) -> bool {
        missing(self@) >= 0
    }

    pub fn new() -> (reader: Self)
        ensures
            reader.wf(),
            reader@ == Seq::<u8>::empty(),
    {
        FrameReader { got: Vec::new() }
    }

    /// How many bytes to ask for next: the rest of the header, or once it is
    /// there the rest of the payload.
    pub fn wanted(&self) -> (n: usize)
        requires
            self.wf(),
        ensures
            n == missing(self@),
    {
        let len: usize = self.got.len();
        if len < HEADER_LEN {
            HEADER_LEN - len
        } else {
            let announced: usize = self.got[1] as usize + 256 * self.got[2] as usize;
            HEADER_LEN + announced - len
        }
    }

    /// Takes the bytes that one read returned. An empty read means that the
    /// peer closed the stream. Once the frame is whole, its type and payload
    /// come back and the reader is ready for the next one.
    pub fn feed(&mut self, bytes: &[u8]) -> (res: Result<Option<(u8, Vec<u8>)>, FrameError>)
        requires
            old(self).wf(),
            bytes@.len() <= missing(old(self)@),
        ensures
            final(self).wf(),
            match res {
                Err(e) => bytes@.len() == 0 && !complete(old(self)@) && e
                    == FrameError::StreamClosed && final(self)@ == old(self)@,
                Ok(None) => bytes@.len() > 0 && !complete(old(self)@ + bytes@) && final(self)@
                    == old(self)@ + bytes@,
                Ok(Some((ty, payload))) => {
                    let whole = old(self)@ + bytes@;
                    &&& complete(whole)
                    &&& ty == whole[0]
                    &&& payload@ == whole.skip(HEADER_LEN as int)
                    &&& final(self)@ == Seq::<u8>::empty()
                },
            },
    {
        let ghost whole = self@ + bytes@;
        let idle: bool = bytes.len() == 0;
        append_bytes(&mut self.got, bytes);
        if self.got.len() >= HEADER_LEN && self.wanted() == 0 {
            let ty: u8 = self.got[0];
            let len: usize = self.got.len();
            let payload: Vec<u8> = crate::lines::copy_range(self.got.as_slice(), HEADER_LEN, len);
            assert(payload@ =~= whole.skip(HEADER_LEN as int));
            self.got.clear();
            return Ok(Some((ty, payload)));
        }
        if idle {
            assert(self@ =~= old(self)@);
            return Err(FrameError::StreamClosed);
        }
        Ok(None)
    }
}

/// Reading back a frame gives its type and its payload, for every payload
/// whose length the header can hold.
pub proof fn frame_reads_back(ty: u8, payload: Seq<u8>)
    requires
        payload.len() <= MAX_PAYLOAD,
    ensures
        complete(frame_bytes(ty, payload)),
        frame_bytes(ty, payload)[0] == ty,
        frame_bytes(ty, payload).skip(HEADER_LEN as int) == payload,
{
    let f = frame_bytes(ty, payload);
    let n = payload.len();
    assert(f[1] == (n % 256) as u8 && f[2] == (n / 256 % 256) as u8);
    assert(n / 256 < 256);
    assert(f.skip(HEADER_LEN as int) =~= payload);
}

/// No proper prefix of a frame counts as a frame, so a reader never stops
/// early.
pub proof fn frame_prefix_is_incomplete(ty: u8, payload: Seq<u8>, n: int)
    requires
        payload.len() <= MAX_PAYLOAD,
        0 <= n < frame_bytes(ty, payload).len(),
    ensures
        !complete(frame_bytes(ty, payload).take(n)),
        missing(frame_bytes(ty, payload).take(n)) > 0,
        missing(frame_bytes(ty, payload).take(n)) <= frame_bytes(ty, payload).len() - n,
{
    frame_reads_back(ty, payload);
    let f = frame_bytes(ty, payload);
    let p = f.take(n);
    if n >= HEADER_LEN {
        assert(p[1] == f[1] && p[2] == f[2]);
    }
}

/// The size a terminal reported, or 24 rows of 80 columns when it reported
/// none.
pub fn window_size(reported: Option<(u16, u16)>) -> (size: (u16, u16))
    ensures
        size == match reported {
            Some(s) => s,
            None => (24u16, 80u16),
        },
{
    match reported {
        Some(s) => s,
        None => (24, 80),
    }
}

/// On the wire a frame is its type, the length of its payload in two bytes, low
/// byte first, and the payload. Of a length that two bytes cannot hold, the
/// lowest two are kept.
pub proof fn frame_layout(ty: u8, payload: Seq<u8>)
    ensures
        frame_bytes(ty, payload).len() == 3 + payload.len(),
        frame_bytes(ty, payload)[0] == ty,
        frame_bytes(ty, payload)[1] + 256 * frame_bytes(ty, payload)[2] == payload.len() % 65536,
        forall|i: int|
            0 <= i < payload.len() ==> #[trigger] frame_bytes(ty, payload)[3 + i] == payload[i],
{
}

/// What a reader still asks for: three bytes of header, and once they are there
/// as many more as the header announces, low byte first. It has a frame when
/// nothing is missing.
pub proof fn reader_asks_for_the_rest(got: Seq<u8>)
    ensures
        got.len() < 3 ==> missing(got) == 3 - got.len() && !complete(got),
        got.len() >= 3 ==> missing(got) + got.len() == 3 + got[1] + 256 * got[2],
        got.len() >= 3 ==> (complete(got) <==> missing(got) == 0),
{
}

/// The types of frames are told apart by these bytes.
pub proof fn frame_types()
    ensures
        FRAME_REQUEST == 0x00 && FRAME_RESPONSE == 0x01 && FRAME_EXIT == 0x02,
        FRAME_DATA == 0x10 && FRAME_STDIN_EOF == 0x11 && FRAME_WINSIZE == 0x20,
        HEADER_LEN == 3 && MAX_PAYLOAD == 65535,
{
}

} // verus!
