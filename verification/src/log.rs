//! Per-container log storage: a bounded ring of lines, and the gateway that
//! feeds it together with the pipes of followers.

use vstd::prelude::*;

use crate::lines;
use crate::lines::NEWLINE;

verus! {

/// Log bytes kept per container.
pub const LOG_CAPACITY: usize = 65536;

/// The text that lossy UTF-8 decoding gives for `bytes`.
pub uninterp spec fn utf8_lossy(bytes: Seq<u8>) -> Seq<char>;

/// Calls `String::from_utf8_lossy`. The text is a function of the bytes, and
/// bytes that are valid UTF-8 decode to the text they encode; what replaces an
/// invalid sequence is left to that function.
#[verifier::external_body]
pub(crate) fn string_from_utf8_lossy(bytes: &[u8]) -> (text: String)
    ensures
        text@ == utf8_lossy(bytes@),
        vstd::utf8::valid_utf8(bytes@) ==> text@ == vstd::utf8::decode_utf8(bytes@),
{
    String::from_utf8_lossy(bytes).into_owned()
}

/// `s` without as many of its oldest lines as must go for at most `room` bytes
/// to remain.
pub open spec fn evicted(s: Seq<u8>, room: int) -> Seq<u8>
    decreases s.len(),
    via evicted_decreases
{
    if s.len() <= room || lines::newline_at(s) >= s.len() {
        s
    } else {
        evicted(s.skip(lines::newline_at(s) + 1), room)
    }
}

#[via_fn]
proof fn evicted_decreases(s: Seq<u8>, room: int) {
    lines::lemma_newline_at(s);
}

/// What a log holds after `line` was pushed: the old text less the evicted
/// lines, then the line and its newline.
pub open spec fn log_pushed(s: Seq<u8>, cap: int, line: Seq<u8>) -> Seq<u8> {
    evicted(s, cap - line.len() - 1) + line.push(NEWLINE)
}

/// A ring buffer of newline-terminated lines. When a new line does not fit,
/// whole lines go, oldest first.
pub struct LogCache {
    buf: Vec<u8>,
    start: usize,
    end: usize,
    bytes: usize,
}

/// `i` folded into a ring of `cap` bytes, for `i` short of two rounds.
pub open spec fn wrap(i: int, cap: int) -> int {
    if i >= cap {
        i - cap
    } else {
        i
    }
}

impl View for LogCache {
    type V = Seq<u8>;

    /// The cached bytes, oldest first.
    closed spec fn view(&self) -> Seq<u8> {
        Seq::new(
            self.bytes as nat,
            |k: int| self.buf@[wrap(self.start + k, self.buf@.len() as int)],
        )
    }
}

impl LogCache {
    /// The number of bytes the cache can hold.
    pub closed spec fn capacity(&self) -> nat {
        self.buf@.len()
    }

    spec fn ring(&self) -> bool {
        let cap = self.buf@.len();
        &&& self.bytes <= cap
        &&& self.start < cap || (cap == 0 && self.start == 0)
        &&& cap > 0 ==> self.end == wrap(self.start + self.bytes, cap as int)
        &&& cap == 0 ==> self.end == 0
    }

    /// The ring indices agree with each other and every cached line is
    /// complete.
    pub closed spec fn wf(&self) -> bool {
        &&& self.ring()
        &&& self.bytes > 0 ==> self@[self.bytes - 1] == NEWLINE
    }

    /// The cached lines, oldest first.
    pub open spec fn lines(&self) -> Seq<Seq<u8>> {
        lines::lines_of(self@)
    }

    /// What `wf` says of the cached bytes: they fit, and all their lines are
    /// complete.
    pub proof fn wf_means(&self)
        requires
            self.wf(),
        ensures
            self@.len() <= self.capacity(),
            lines::tail_of(self@) == Seq::<u8>::empty(),
            lines::joined(self.lines()) == self@,
    {
        lemma_complete(self@);
        lines::joined_lines_restore_stream(self@);
        assert(lines::joined(self.lines()) + Seq::<u8>::empty() =~= lines::joined(self.lines()));
    }

    pub fn new(cap: usize) -> (cache: Self)
        ensures
            cache.wf(),
            cache.capacity() == cap,
            cache@ == Seq::<u8>::empty(),
    {
        let cache = LogCache { buf: vec![0u8; cap], start: 0, end: 0, bytes: 0 };
        assert(cache@ =~= Seq::<u8>::empty());
        cache
    }

    pub fn is_empty(&self) -> (empty: bool)
        ensures
            empty == (self@.len() == 0),
    {
        self.bytes == 0
    }

    /// The byte at logical position `k`.
    fn at(&self, k: usize) -> (b: u8)
        requires
            self.ring(),
            k < self.bytes,
        ensures
            b == self@[k as int],
    {
        let cap: usize = self.buf.len();
        let i: usize = if k >= cap - self.start {
            k - (cap - self.start)
        } else {
            self.start + k
        };
        self.buf[i]
    }

    /// Logical position of the first newline at or after `from`.
    fn find_newline(&self, from: usize) -> (pos: usize)
        requires
            self.wf(),
            from < self.bytes,
        ensures
            from <= pos < self.bytes,
            pos - from == lines::newline_at(self@.skip(from as int)),
    {
        let mut pos: usize = from;
        while self.at(pos) != NEWLINE
            invariant
                self.wf(),
                from <= pos < self.bytes,
                self@.len() == self.bytes,
                forall|k: int| from <= k < pos ==> self@[k] != NEWLINE,
            decreases self.bytes - pos,
        {
            if pos + 1 == self.bytes {
                assert(self@[pos as int] == NEWLINE);
            }
            pos = pos + 1;
        }
        proof {
            lines::lemma_newline_at_is(self@.skip(from as int), pos - from);
        }
        pos
    }

    /// Drops the oldest line.
    fn evict_oldest(&mut self)
        requires
            old(self).wf(),
            old(self)@.len() > 0,
        ensures
            final(self).wf(),
            final(self).capacity() == old(self).capacity(),
            final(self).bytes < old(self).bytes,
            final(self)@ == old(self)@.skip(lines::newline_at(old(self)@) + 1),
            lines::newline_at(old(self)@) < old(self)@.len(),
    {
        let ghost before = self@;
        let pos: usize = self.find_newline(0);
        assert(before.skip(0) =~= before);
        let gone: usize = pos + 1;
        let cap: usize = self.buf.len();
        self.start = if gone >= cap - self.start {
            gone - (cap - self.start)
        } else {
            self.start + gone
        };
        self.bytes = self.bytes - gone;
        assert(self@ =~= before.skip(pos + 1));
    }

    /// Appends one byte.
    fn append(&mut self, b: u8)
        requires
            old(self).ring(),
            old(self)@.len() < old(self).capacity(),
        ensures
            final(self).ring(),
            final(self).capacity() == old(self).capacity(),
            final(self)@ == old(self)@.push(b),
    {
        let ghost before = self@;
        let cap: usize = self.buf.len();
        let end: usize = self.end;
        self.buf.set(end, b);
        self.end = if end + 1 == cap {
            0
        } else {
            end + 1
        };
        self.bytes = self.bytes + 1;
        assert(self@ =~= before.push(b)) by {
            assert forall|k: int| 0 <= k < before.len() implies self@[k] == before[k] by {
                assert(wrap(self.start + k, cap as int) != end);
            }
        }
    }

    /// Adds `line` and its newline, making room by dropping the oldest lines.
    pub fn push(&mut self, line: &[u8])
        requires
            old(self).wf(),
            line@.len() < old(self).capacity(),
        ensures
            final(self).wf(),
            final(self).capacity() == old(self).capacity(),
            final(self)@ == log_pushed(old(self)@, old(self).capacity() as int, line@),
    {
        let cap: usize = self.buf.len();
        let ghost room = cap - line@.len() - 1;
        let need: usize = line.len() + 1;
        while cap - self.bytes < need
            invariant
                self.wf(),
                self.capacity() == cap,
                need <= cap,
                room == cap - need,
                self@.len() == self.bytes,
                evicted(self@, room) == evicted(old(self)@, room),
            decreases self.bytes,
        {
            self.evict_oldest();
        }
        let ghost kept = self@;
        assert(kept == evicted(old(self)@, room));
        let mut k: usize = 0;
        assert(kept + line@.take(0) =~= kept);
        while k < line.len()
            invariant
                self.ring(),
                self.capacity() == cap,
                k <= line@.len(),
                kept.len() + line@.len() < cap,
                self@ == kept + line@.take(k as int),
            decreases line@.len() - k,
        {
            self.append(line[k]);
            k = k + 1;
            assert(self@ =~= kept + line@.take(k as int));
        }
        self.append(NEWLINE);
        assert(self@ =~= kept + line@.push(NEWLINE));
    }

    /// The cached lines, each followed by its newline, as one byte string.
    pub fn snapshot(&self) -> (out: Vec<u8>)
        requires
            self.wf(),
        ensures
            out@ == self@,
            out@ == lines::joined(self.lines()),
    {
        let mut out: Vec<u8> = Vec::with_capacity(self.bytes);
        let mut k: usize = 0;
        while k < self.bytes
            invariant
                self.wf(),
                k <= self.bytes,
                self@.len() == self.bytes,
                out@ == self@.take(k as int),
            decreases self.bytes - k,
        {
            out.push(self.at(k));
            k = k + 1;
            assert(out@ =~= self@.take(k as int));
        }
        assert(out@ =~= self@);
        proof {
            self.wf_means();
        }
        out
    }

    /// The cached lines as text, oldest first. The cache keeps them.
    pub fn collect_lines(&self) -> (out: Vec<String>)
        requires
            self.wf(),
        ensures
            out@.len() == self.lines().len(),
            forall|i: int|
                0 <= i < out@.len() ==> (#[trigger] out@[i])@ == utf8_lossy(self.lines()[i]),
            forall|i: int|
                0 <= i < out@.len() && vstd::utf8::valid_utf8(self.lines()[i])
                    ==> (#[trigger] out@[i])@ == vstd::utf8::decode_utf8(self.lines()[i]),
    {
        let mut out: Vec<String> = Vec::new();
        let mut pos: usize = 0;
        let ghost all = lines::lines_of(self@);
        assert(self@.skip(0) =~= self@);
        while pos < self.bytes
            invariant
                self.wf(),
                pos <= self.bytes,
                self@.len() == self.bytes,
                all == lines::lines_of(self@),
                out@.len() <= all.len(),
                lines::lines_of(self@.skip(pos as int)) == all.skip(out@.len() as int),
                forall|i: int|
                    0 <= i < out@.len() ==> (#[trigger] out@[i])@ == utf8_lossy(all[i]),
                forall|i: int|
                    0 <= i < out@.len() && vstd::utf8::valid_utf8(all[i]) ==> (
                    #[trigger] out@[i])@ == vstd::utf8::decode_utf8(all[i]),
            decreases self.bytes - pos,
        {
            let ghost rest = self@.skip(pos as int);
            let stop: usize = self.find_newline(pos);
            let mut line: Vec<u8> = Vec::with_capacity(stop - pos);
            let mut k: usize = pos;
            while k < stop
                invariant
                    self.wf(),
                    pos <= k <= stop < self.bytes,
                    self@.len() == self.bytes,
                    line@ == self@.subrange(pos as int, k as int),
                decreases stop - k,
            {
                line.push(self.at(k));
                k = k + 1;
                assert(line@ =~= self@.subrange(pos as int, k as int));
            }
            proof {
                let n = out@.len() as int;
                assert(line@ =~= rest.take(stop - pos));
                assert(rest.skip(stop - pos + 1) =~= self@.skip(stop + 1));
                assert(lines::lines_of(rest)[0] == line@);
                assert(all.skip(n).len() > 0);
                assert(all.skip(n)[0] == all[n]);
                assert(lines::lines_of(rest).skip(1) =~= lines::lines_of(self@.skip(stop + 1)));
                assert(all.skip(n).skip(1) =~= all.skip(n + 1));
            }
            out.push(string_from_utf8_lossy(line.as_slice()));
            pos = stop + 1;
        }
        proof {
            let rest = self@.skip(pos as int);
            assert(rest.len() == 0);
            lines::lemma_newline_at(rest);
            assert(lines::lines_of(rest).len() == 0);
        }
        out
    }
}

/// A byte string that is empty or ends in a newline has no unfinished tail.
pub proof fn lemma_complete(s: Seq<u8>)
    requires
        s.len() > 0 ==> s.last() == NEWLINE,
    ensures
        lines::tail_of(s) == Seq::<u8>::empty(),
    decreases s.len(),
{
    lines::lemma_newline_at(s);
    let n = lines::newline_at(s);
    if n >= s.len() {
        if s.len() > 0 {
            assert(s[s.len() - 1] != NEWLINE);
        }
        assert(s =~= Seq::<u8>::empty());
    } else {
        let rest = s.skip(n + 1);
        if rest.len() > 0 {
            assert(rest.last() == s.last());
        }
        lemma_complete(rest);
    }
}

/// Eviction drops whole lines from the front, no more than needed: what stays
/// is the longest run of newest lines that fits in `room` bytes.
pub proof fn lemma_evicted(s: Seq<u8>, room: int) -> (gone: int)
    requires
        0 <= room,
        lines::tail_of(s) == Seq::<u8>::empty(),
    ensures
        0 <= gone <= lines::lines_of(s).len(),
        evicted(s, room) == lines::joined(lines::lines_of(s).skip(gone)),
        lines::lines_of(evicted(s, room)) == lines::lines_of(s).skip(gone),
        lines::tail_of(evicted(s, room)) == Seq::<u8>::empty(),
        evicted(s, room).len() <= room,
        gone > 0 ==> lines::joined(lines::lines_of(s).skip(gone - 1)).len() > room,
    decreases s.len(),
{
    lines::lemma_newline_at(s);
    lines::joined_lines_restore_stream(s);
    let n = lines::newline_at(s);
    let all = lines::lines_of(s);
    assert(all.skip(0) =~= all);
    assert(lines::joined(all) + Seq::<u8>::empty() =~= lines::joined(all));
    if s.len() <= room || n >= s.len() {
        0
    } else {
        let rest = s.skip(n + 1);
        let k = lemma_evicted(rest, room);
        let tail = lines::lines_of(rest);
        assert(all.skip(1) =~= tail);
        assert(all.skip(k + 1) =~= tail.skip(k));
        if k > 0 {
            assert(all.skip(k) =~= tail.skip(k - 1));
        } else {
            assert(all.skip(k) =~= all);
        }
        k + 1
    }
}

/// After a push the cache holds the newest of its old lines, as many as fit
/// beside the new one, and then the new line.
pub proof fn push_keeps_newest_lines(s: Seq<u8>, cap: int, line: Seq<u8>) -> (gone: int)
    requires
        lines::tail_of(s) == Seq::<u8>::empty(),
        lines::one_line(line),
        line.len() < cap,
    ensures
        0 <= gone <= lines::lines_of(s).len(),
        lines::lines_of(log_pushed(s, cap, line)) == lines::lines_of(s).skip(gone).push(line),
        log_pushed(s, cap, line).len() <= cap,
        gone > 0 ==> lines::joined(lines::lines_of(s).skip(gone - 1)).len() + line.len() + 1 > cap,
{
    let room = cap - line.len() - 1;
    let gone = lemma_evicted(s, room);
    let kept = evicted(s, room);
    let add = line.push(NEWLINE);
    lines::lines_are_independent_of_chunking(kept, add);
    lines::lemma_lines_of_one(line);
    assert(lines::tail_of(kept) + add =~= add);
    assert(lines::lines_of(s).skip(gone) + seq![line] =~= lines::lines_of(s).skip(gone).push(line));
    gone
}

/// A line that fits beside everything cached evicts nothing.
pub proof fn push_with_room_appends(s: Seq<u8>, cap: int, line: Seq<u8>)
    requires
        s.len() + line.len() < cap,
    ensures
        log_pushed(s, cap, line) == s + line.push(NEWLINE),
{
}

/// One follower's pipe. At most one write is outstanding on it at a time.
#[derive(Clone, Copy, Debug, PartialEq, Eq, Structural)]
pub struct AsyncPipeWriter {
    pub id: u64,
    pub fd: i32,
    pub in_flight: bool,
}

impl AsyncPipeWriter {
    pub fn new(id: u64, fd: i32) -> (pipe: Self)
        ensures
            pipe == (AsyncPipeWriter { id, fd, in_flight: false }),
    {
        AsyncPipeWriter { id, fd, in_flight: false }
    }

    /// Records that the outstanding write ended. A failed write kills the
    /// pipe: its descriptor comes back, to be closed.
    pub fn complete(&mut self, ok: bool) -> (close: Option<i32>)
        ensures
            *final(self) == (AsyncPipeWriter {
                id: old(self).id,
                fd: if ok { old(self).fd } else { -1i32 },
                in_flight: false,
            }),
            close == if ok { None } else { Some(old(self).fd) },
    {
        self.in_flight = false;
        if ok {
            None
        } else {
            let fd: i32 = self.fd;
            self.fd = -1;
            Some(fd)
        }
    }
}

/// Position of the first pipe called `id`, or `pipes.len()` when none is.
pub open spec fn pipe_index(pipes: Seq<AsyncPipeWriter>, id: u64) -> int
    decreases pipes.len(),
{
    if pipes.len() == 0 || pipes[0].id == id {
        0
    } else {
        1 + pipe_index(pipes.skip(1), id)
    }
}

/// The ids of the pipes with no write outstanding, in order.
pub open spec fn idle_ids(pipes: Seq<AsyncPipeWriter>) -> Seq<u64>
    decreases pipes.len(),
{
    if pipes.len() == 0 {
        Seq::empty()
    } else if pipes.last().in_flight {
        idle_ids(pipes.drop_last())
    } else {
        idle_ids(pipes.drop_last()).push(pipes.last().id)
    }
}

/// `pipes` with a write outstanding on each.
pub open spec fn all_in_flight(pipes: Seq<AsyncPipeWriter>) -> Seq<AsyncPipeWriter> {
    pipes.map_values(|p: AsyncPipeWriter| AsyncPipeWriter { in_flight: true, ..p })
}

/// The open descriptors of `pipes`, in order.
pub open spec fn open_fds(pipes: Seq<AsyncPipeWriter>) -> Seq<i32>
    decreases pipes.len(),
{
    if pipes.len() == 0 {
        Seq::empty()
    } else if pipes.last().fd < 0 {
        open_fds(pipes.drop_last())
    } else {
        open_fds(pipes.drop_last()).push(pipes.last().fd)
    }
}

pub proof fn lemma_pipe_index(pipes: Seq<AsyncPipeWriter>, id: u64)
    ensures
        0 <= pipe_index(pipes, id) <= pipes.len(),
        pipe_index(pipes, id) < pipes.len() ==> pipes[pipe_index(pipes, id)].id == id,
        forall|i: int| 0 <= i < pipe_index(pipes, id) ==> pipes[i].id != id,
    decreases pipes.len(),
{
    if pipes.len() == 0 || pipes[0].id == id {
    } else {
        let t = pipes.skip(1);
        lemma_pipe_index(t, id);
        assert forall|i: int| 0 <= i < pipe_index(pipes, id) implies pipes[i].id != id by {
            if i > 0 {
                assert(pipes[i] == t[i - 1]);
            }
        }
    }
}

/// The pipes left after the write on `id` ended. A pipe whose write failed is
/// gone, the last pipe taking its place.
pub open spec fn pipes_completed(
    pipes: Seq<AsyncPipeWriter>,
    id: u64,
    ok: bool,
) -> Seq<AsyncPipeWriter> {
    let i = pipe_index(pipes, id);
    if i >= pipes.len() {
        pipes
    } else if ok {
        pipes.update(i, AsyncPipeWriter { in_flight: false, ..pipes[i] })
    } else {
        pipes.update(i, pipes.last()).drop_last()
    }
}

/// A container's log cache and the pipes of its followers.
pub struct LogGateway {
    pub cache: LogCache,
    pub pipes: Vec<AsyncPipeWriter>,
}

impl LogGateway {
    pub open spec fn wf(&self) -> bool {
        self.cache.wf()
    }

    pub fn new(cap: usize) -> (gateway: Self)
        ensures
            gateway.wf(),
            gateway.cache.capacity() == cap,
            gateway.cache@ == Seq::<u8>::empty(),
            gateway.pipes@ == Seq::<AsyncPipeWriter>::empty(),
    {
        LogGateway { cache: LogCache::new(cap), pipes: Vec::new() }
    }

    /// Caches `line` and marks every idle pipe as being written. The ids of
    /// those pipes come back: the caller writes the line to each.
    pub fn push(&mut self, line: &[u8]) -> (ids: Vec<u64>)
        requires
            old(self).wf(),
            line@.len() < old(self).cache.capacity(),
        ensures
            final(self).wf(),
            final(self).cache.capacity() == old(self).cache.capacity(),
            final(self).cache@ == log_pushed(
                old(self).cache@,
                old(self).cache.capacity() as int,
                line@,
            ),
            final(self).pipes@ == all_in_flight(old(self).pipes@),
            ids@ == idle_ids(old(self).pipes@),
    {
        self.cache.push(line);
        let mut ids: Vec<u64> = Vec::new();
        let ghost pipes = self.pipes@;
        let ghost cached = self.cache;
        let mut i: usize = 0;
        assert(pipes.take(0) =~= Seq::empty());
        while i < self.pipes.len()
            invariant
                i <= self.pipes@.len(),
                self.pipes@.len() == pipes.len(),
                self.cache.wf(),
                self.cache == cached,
                forall|k: int| 0 <= k < i ==> self.pipes@[k] == all_in_flight(pipes)[k],
                forall|k: int| i <= k < pipes.len() ==> self.pipes@[k] == pipes[k],
                ids@ == idle_ids(pipes.take(i as int)),
            decreases self.pipes@.len() - i,
        {
            assert(pipes.take(i + 1).drop_last() =~= pipes.take(i as int));
            if !self.pipes[i].in_flight {
                let mut pipe: AsyncPipeWriter = self.pipes[i];
                pipe.in_flight = true;
                self.pipes.set(i, pipe);
                ids.push(pipe.id);
            }
            i = i + 1;
        }
        assert(pipes.take(pipes.len() as int) =~= pipes);
        assert(self.pipes@ =~= all_in_flight(pipes));
        ids
    }

    fn index_of(&self, id: u64) -> (i: usize)
        ensures
            i == pipe_index(self.pipes@, id),
            i <= self.pipes@.len(),
    {
        proof {
            lemma_pipe_index(self.pipes@, id);
        }
        let mut i: usize = 0;
        while i < self.pipes.len() && self.pipes[i].id != id
            invariant
                i <= self.pipes@.len(),
                forall|k: int| 0 <= k < i ==> self.pipes@[k].id != id,
            decreases self.pipes@.len() - i,
        {
            i = i + 1;
        }
        i
    }

    /// Records that the write on pipe `pipe_id` ended. After a failed write
    /// the pipe is gone and its descriptor comes back, to be closed.
    pub fn complete_write(&mut self, pipe_id: u64, ok: bool) -> (close: Option<i32>)
        ensures
            final(self).cache == old(self).cache,
            final(self).pipes@ == pipes_completed(old(self).pipes@, pipe_id, ok),
            close == if ok || pipe_index(old(self).pipes@, pipe_id) >= old(self).pipes@.len() {
                None
            } else {
                Some(old(self).pipes@[pipe_index(old(self).pipes@, pipe_id)].fd)
            },
    {
        let i: usize = self.index_of(pipe_id);
        if i >= self.pipes.len() {
            return None;
        }
        let mut pipe: AsyncPipeWriter = self.pipes[i];
        let close: Option<i32> = pipe.complete(ok);
        if ok {
            self.pipes.set(i, pipe);
        } else {
            self.pipes.swap_remove(i);
        }
        close
    }

    /// The descriptor of pipe `pipe_id`, if it is still there.
    pub fn pipe_fd(&self, pipe_id: u64) -> (fd: Option<i32>)
        ensures
            fd == if pipe_index(self.pipes@, pipe_id) >= self.pipes@.len() {
                None
            } else {
                Some(self.pipes@[pipe_index(self.pipes@, pipe_id)].fd)
            },
    {
        let i: usize = self.index_of(pipe_id);
        if i >= self.pipes.len() {
            None
        } else {
            Some(self.pipes[i].fd)
        }
    }

    /// The cached lines as text, oldest first.
    pub fn collect_lines(&self) -> (out: Vec<String>)
        requires
            self.wf(),
        ensures
            out@.len() == self.cache.lines().len(),
            forall|i: int|
                0 <= i < out@.len() ==> (#[trigger] out@[i])@ == utf8_lossy(self.cache.lines()[i]),
    {
        self.cache.collect_lines()
    }

    /// The cached lines, each followed by its newline.
    pub fn snapshot(&self) -> (out: Vec<u8>)
        requires
            self.wf(),
        ensures
            out@ == self.cache@,
    {
        self.cache.snapshot()
    }

    /// Drops every pipe. The open descriptors come back, to be closed.
    pub fn close_all_pipes(&mut self) -> (close: Vec<i32>)
        ensures
            final(self).cache == old(self).cache,
            final(self).pipes@ == Seq::<AsyncPipeWriter>::empty(),
            close@ == open_fds(old(self).pipes@),
    {
        let mut close: Vec<i32> = Vec::new();
        let mut i: usize = 0;
        assert(self.pipes@.take(0) =~= Seq::empty());
        while i < self.pipes.len()
            invariant
                i <= self.pipes@.len(),
                *self == *old(self),
                close@ == open_fds(self.pipes@.take(i as int)),
            decreases self.pipes@.len() - i,
        {
            assert(self.pipes@.take(i + 1).drop_last() =~= self.pipes@.take(i as int));
            if self.pipes[i].fd >= 0 {
                close.push(self.pipes[i].fd);
            }
            i = i + 1;
        }
        assert(self.pipes@.take(i as int) =~= self.pipes@);
        self.pipes.clear();
        close
    }
}

/// Between a push and the completion of its writes no second write starts: a
/// push right after another one hands out no pipe.
pub proof fn busy_pipes_get_no_second_write(pipes: Seq<AsyncPipeWriter>)
    ensures
        idle_ids(all_in_flight(pipes)) == Seq::<u64>::empty(),
    decreases pipes.len(),
{
    if pipes.len() > 0 {
        assert(all_in_flight(pipes).drop_last() =~= all_in_flight(pipes.drop_last()));
        busy_pipes_get_no_second_write(pipes.drop_last());
    }
}

/// A failed write removes exactly one pipe, and with distinct ids the pipe can
/// no longer be found.
pub proof fn failed_write_removes_pipe(pipes: Seq<AsyncPipeWriter>, id: u64)
    requires
        pipe_index(pipes, id) < pipes.len(),
        forall|i: int, j: int|
            0 <= i < j < pipes.len() ==> (#[trigger] pipes[i]).id != (#[trigger] pipes[j]).id,
    ensures
        pipes_completed(pipes, id, false).len() == pipes.len() - 1,
        pipe_index(pipes_completed(pipes, id, false), id) == pipes.len() - 1,
{
    lemma_pipe_index(pipes, id);
    let left = pipes_completed(pipes, id, false);
    lemma_pipe_index(left, id);
    let i = pipe_index(pipes, id);
    let j = pipe_index(left, id);
    if j < left.len() {
        if j == i {
            assert(left[j] == pipes.last());
            assert(pipes[i].id != pipes[pipes.len() - 1].id);
        } else {
            assert(left[j] == pipes[j]);
            if i < j {
                assert(pipes[i].id != pipes[j].id);
            } else {
                assert(pipes[j].id != pipes[i].id);
            }
        }
    }
}

/// Whatever was pushed last is at the end, in full and followed by a newline,
/// and what stands before it is the end of what the log held. Nothing goes
/// while both fit, and no log outgrows its capacity.
pub proof fn pushed_text_is_at_the_end(s: Seq<u8>, cap: int, line: Seq<u8>)
    requires
        lines::tail_of(s) == Seq::<u8>::empty(),
        line.len() < cap,
    ensures
        ({
            let after = log_pushed(s, cap, line);
            let kept = after.len() - line.len() - 1;
            &&& 0 <= kept <= s.len()
            &&& after.len() <= cap
            &&& after == s.skip(s.len() - kept) + line + seq![10u8]
            &&& s.len() + line.len() + 1 <= cap ==> kept == s.len()
        }),
{
    let room = cap - line.len() - 1;
    lemma_evicted(s, room);
    lemma_evicted_is_suffix(s, room);
    let left = evicted(s, room);
    let after = log_pushed(s, cap, line);
    assert(after =~= s.skip(s.len() - left.len()) + line + seq![10u8]);
}

proof fn lemma_evicted_is_suffix(s: Seq<u8>, room: int)
    ensures
        evicted(s, room).len() <= s.len(),
        evicted(s, room) == s.skip(s.len() - evicted(s, room).len()),
    decreases s.len(),
{
    if s.len() <= room || lines::newline_at(s) >= s.len() {
        assert(s.skip(0) =~= s);
    } else {
        lines::lemma_newline_at(s);
        let n = lines::newline_at(s) + 1;
        let rest = s.skip(n);
        lemma_evicted_is_suffix(rest, room);
        let left = evicted(rest, room);
        assert(rest.skip(rest.len() - left.len()) =~= s.skip(s.len() - left.len()));
    }
}

/// A new line goes to exactly the followers that have no write outstanding.
pub proof fn idle_pipes_get_the_line(pipes: Seq<AsyncPipeWriter>, id: u64)
    ensures
        idle_ids(pipes).contains(id) <==> exists|i: int|
            0 <= i < pipes.len() && (#[trigger] pipes[i]).id == id && !pipes[i].in_flight,
        idle_ids(pipes).len() <= pipes.len(),
        (forall|i: int| 0 <= i < pipes.len() ==> !(#[trigger] pipes[i]).in_flight)
            ==> idle_ids(pipes) == pipes.map_values(|p: AsyncPipeWriter| p.id),
    decreases pipes.len(),
{
    if pipes.len() > 0 {
        let rest = pipes.drop_last();
        let ids = idle_ids(rest);
        idle_pipes_get_the_line(rest, id);
        let last = pipes.len() - 1;
        assert(forall|i: int| 0 <= i < last ==> rest[i] == #[trigger] pipes[i]);
        if idle_ids(pipes).contains(id) {
            let k = choose|k: int| 0 <= k < idle_ids(pipes).len() && idle_ids(pipes)[k] == id;
            if k < ids.len() {
                assert(ids[k] == id);
                let i = choose|i: int|
                    0 <= i < rest.len() && (#[trigger] rest[i]).id == id && !rest[i].in_flight;
                assert(pipes[i].id == id && !pipes[i].in_flight);
            } else {
                assert(pipes[last].id == id && !pipes[last].in_flight);
            }
        }
        if exists|i: int|
            0 <= i < pipes.len() && (#[trigger] pipes[i]).id == id && !pipes[i].in_flight {
            let i = choose|i: int|
                0 <= i < pipes.len() && (#[trigger] pipes[i]).id == id && !pipes[i].in_flight;
            if i < last {
                assert(rest[i].id == id && !rest[i].in_flight);
                let k = choose|k: int| 0 <= k < ids.len() && ids[k] == id;
                assert(idle_ids(pipes)[k] == id);
            } else {
                assert(idle_ids(pipes)[ids.len() as int] == id);
            }
        }
        if forall|i: int| 0 <= i < pipes.len() ==> !(#[trigger] pipes[i]).in_flight {
            assert(!pipes[last].in_flight);
            assert(forall|i: int| 0 <= i < rest.len() ==> !(#[trigger] rest[i]).in_flight);
            assert(idle_ids(pipes) =~= pipes.map_values(|p: AsyncPipeWriter| p.id));
        }
    } else {
        assert(idle_ids(pipes) =~= pipes.map_values(|p: AsyncPipeWriter| p.id));
    }
}

/// Marking the pipes as being written changes nothing else of them.
pub proof fn writing_keeps_the_pipes(pipes: Seq<AsyncPipeWriter>, i: int)
    requires
        0 <= i < pipes.len(),
    ensures
        all_in_flight(pipes).len() == pipes.len(),
        all_in_flight(pipes)[i].in_flight,
        all_in_flight(pipes)[i].id == pipes[i].id,
        all_in_flight(pipes)[i].fd == pipes[i].fd,
{
}

/// With a container's followers gone, exactly their open descriptors are
/// closed.
pub proof fn every_open_pipe_is_closed(pipes: Seq<AsyncPipeWriter>, fd: i32)
    ensures
        open_fds(pipes).contains(fd) <==> fd >= 0 && exists|i: int|
            0 <= i < pipes.len() && (#[trigger] pipes[i]).fd == fd,
        open_fds(pipes).len() <= pipes.len(),
    decreases pipes.len(),
{
    if pipes.len() > 0 {
        let rest = pipes.drop_last();
        let fds = open_fds(rest);
        every_open_pipe_is_closed(rest, fd);
        let last = pipes.len() - 1;
        if open_fds(pipes).contains(fd) {
            let k = choose|k: int| 0 <= k < open_fds(pipes).len() && open_fds(pipes)[k] == fd;
            if k < fds.len() {
                assert(fds[k] == fd);
                let i = choose|i: int| 0 <= i < rest.len() && (#[trigger] rest[i]).fd == fd;
                assert(pipes[i].fd == fd);
            } else {
                assert(pipes[last].fd == fd);
            }
        }
        if fd >= 0 && exists|i: int| 0 <= i < pipes.len() && (#[trigger] pipes[i]).fd == fd {
            let i = choose|i: int| 0 <= i < pipes.len() && (#[trigger] pipes[i]).fd == fd;
            if i < last {
                assert(rest[i].fd == fd);
                let k = choose|k: int| 0 <= k < fds.len() && fds[k] == fd;
                assert(open_fds(pipes)[k] == fd);
            } else {
                assert(open_fds(pipes)[fds.len() as int] == fd);
            }
        }
    }
}

/// The end of a write concerns its own pipe only. After success that pipe can
/// be written again and all else stays; after a failure it is gone, and every
/// other pipe is still there as it was. A pipe that is not known changes
/// nothing.
pub proof fn ended_write_concerns_one_pipe(
    pipes: Seq<AsyncPipeWriter>,
    id: u64,
    ok: bool,
    i: int,
)
    requires
        forall|a: int, b: int|
            0 <= a < b < pipes.len() ==> (#[trigger] pipes[a]).id != (#[trigger] pipes[b]).id,
        0 <= i < pipes.len(),
    ensures
        ({
            let after = pipes_completed(pipes, id, ok);
            &&& ok ==> after.len() == pipes.len() && after[i].fd == pipes[i].fd && after[i].id
                == pipes[i].id
            &&& ok && pipes[i].id == id ==> !after[i].in_flight
            &&& ok && pipes[i].id != id ==> after[i] == pipes[i]
            &&& !ok && pipes[i].id != id ==> after.contains(pipes[i])
            &&& !ok && pipes[i].id == id ==> after.len() == pipes.len() - 1 && forall|k: int|
                0 <= k < after.len() ==> (#[trigger] after[k]).id != id
        }),
{
    lemma_pipe_index(pipes, id);
    let at = pipe_index(pipes, id);
    let after = pipes_completed(pipes, id, ok);
    let last = pipes.len() - 1;
    if at < pipes.len() {
        assert(pipes[at].id == id);
        if pipes[i].id == id {
            assert(i == at);
        }
        if !ok {
            if i != at {
                if i == last {
                    assert(after[at] == pipes[i]);
                } else {
                    assert(after[i] == pipes[i]);
                }
            } else {
                assert forall|k: int| 0 <= k < after.len() implies (#[trigger] after[k]).id
                    != id by {
                    if k == at {
                        assert(after[k] == pipes[last]);
                        assert(at < last);
                    } else {
                        assert(after[k] == pipes[k]);
                    }
                }
            }
        }
    } else if !ok && pipes[i].id != id {
        assert(after[i] == pipes[i]);
    }
}

/// Followers are served in their order: of two lists one behind the other,
/// those of the first come first, and each once.
pub proof fn followers_are_served_in_order(a: Seq<AsyncPipeWriter>, b: Seq<AsyncPipeWriter>)
    ensures
        idle_ids(a + b) == idle_ids(a) + idle_ids(b),
        open_fds(a + b) == open_fds(a) + open_fds(b),
        a.len() == 1 ==> idle_ids(a) == if a[0].in_flight {
            Seq::<u64>::empty()
        } else {
            seq![a[0].id]
        },
        a.len() == 1 ==> open_fds(a) == if a[0].fd < 0 {
            Seq::<i32>::empty()
        } else {
            seq![a[0].fd]
        },
    decreases b.len(),
{
    if a.len() == 1 {
        reveal_with_fuel(idle_ids, 2);
        reveal_with_fuel(open_fds, 2);
        assert(a.drop_last() =~= Seq::empty());
    }
    if b.len() == 0 {
        assert(a + b =~= a);
        assert(idle_ids(a) + idle_ids(b) =~= idle_ids(a));
        assert(open_fds(a) + open_fds(b) =~= open_fds(a));
    } else {
        followers_are_served_in_order(a, b.drop_last());
        assert((a + b).drop_last() =~= a + b.drop_last());
        assert((a + b).last() == b.last());
        assert(idle_ids(a + b) =~= idle_ids(a) + idle_ids(b));
        assert(open_fds(a + b) =~= open_fds(a) + open_fds(b));
    }
}

} // verus!
