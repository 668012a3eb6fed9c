//! What the number on a completion means.

use vstd::prelude::*;

verus! {

/// Number of the datagram receive.
pub const DATAGRAM: u64 = 0;

/// Number of the read that reports child signals.
pub const SIGNAL: u64 = 1;

/// The first number given to a container's output.
pub const FIRST_OUTPUT: u64 = 2;

/// Marks the write of a follower's backlog.
pub const BACKLOG_WRITE: u64 = 0x8000_0000_0000_0000;

/// Marks the write of a line to a follower.
pub const PIPE_WRITE: u64 = 0x4000_0000_0000_0000;

/// Marks the message that hands a follower its pipe.
pub const FOLLOW_FD: u64 = 0x2000_0000_0000_0000;

/// Number of the accept on the stream socket.
pub const ACCEPT: u64 = 0x1000_0000_0000_0000;

/// Marks a read from a session's stream.
pub const STREAM_READ: u64 = 0x0800_0000_0000_0000;

/// Marks a write to a session's stream.
pub const STREAM_WRITE: u64 = 0x0400_0000_0000_0000;

/// Marks a read of a session's output.
pub const PTY_READ: u64 = 0x0200_0000_0000_0000;

/// Marks a write to a session's PTY.
pub const PTY_WRITE: u64 = 0x0100_0000_0000_0000;

/// Keeps the session id of a number.
pub const SESSION_MASK: u64 = 0x00ff_ffff_ffff_ffff;

/// Keeps the follower or pipe id of a number.
pub const PIPE_ID_MASK: u64 = 0x1fff_ffff_ffff_ffff;

/// Ids below this one leave every mark free.
pub const ID_LIMIT: u64 = 0x0100_0000_0000_0000;

/// What was completed, and for whom.
#[derive(Clone, Copy, Debug, PartialEq, Eq, Structural)]
pub enum Route {
    Datagram,
    Signal,
    FollowFd(u64),
    Backlog(u64),
    PipeWrite(u64),
    Accept,
    StreamRead(u64),
    StreamWrite(u64),
    PtyRead(u64),
    PtyWrite(u64),
    Output(u64),
}

/// Whether `number` carries `mark`.
pub open spec fn marked(number: u64, mark: u64) -> bool {
    number & mark != 0
}

/// The meaning of a number. Where several marks are set, the first of these
/// decides.
pub open spec fn route_of(number: u64) -> Route {
    if number == DATAGRAM {
        Route::Datagram
    } else if number == SIGNAL {
        Route::Signal
    } else if marked(number, FOLLOW_FD) {
        Route::FollowFd(number & PIPE_ID_MASK)
    } else if marked(number, BACKLOG_WRITE) {
        Route::Backlog(number & PIPE_ID_MASK)
    } else if marked(number, PIPE_WRITE) {
        Route::PipeWrite(number & PIPE_ID_MASK)
    } else if number == ACCEPT {
        Route::Accept
    } else if marked(number, STREAM_READ) {
        Route::StreamRead(number & SESSION_MASK)
    } else if marked(number, STREAM_WRITE) {
        Route::StreamWrite(number & SESSION_MASK)
    } else if marked(number, PTY_READ) {
        Route::PtyRead(number & SESSION_MASK)
    } else if marked(number, PTY_WRITE) {
        Route::PtyWrite(number & SESSION_MASK)
    } else {
        Route::Output(number)
    }
}

/// Finds out what a completion's number means.
pub fn route(number: u64) -> (route: Route)
    ensures
        route == route_of(number),
{
    if number == DATAGRAM {
        Route::Datagram
    } else if number == SIGNAL {
        Route::Signal
    } else if number & FOLLOW_FD != 0 {
        Route::FollowFd(number & PIPE_ID_MASK)
    } else if number & BACKLOG_WRITE != 0 {
        Route::Backlog(number & PIPE_ID_MASK)
    } else if number & PIPE_WRITE != 0 {
        Route::PipeWrite(number & PIPE_ID_MASK)
    } else if number == ACCEPT {
        Route::Accept
    } else if number & STREAM_READ != 0 {
        Route::StreamRead(number & SESSION_MASK)
    } else if number & STREAM_WRITE != 0 {
        Route::StreamWrite(number & SESSION_MASK)
    } else if number & PTY_READ != 0 {
        Route::PtyRead(number & SESSION_MASK)
    } else if number & PTY_WRITE != 0 {
        Route::PtyWrite(number & SESSION_MASK)
    } else {
        Route::Output(number)
    }
}

/// The number of an operation.
pub open spec fn number_of(route: Route) -> u64 {
    match route {
        Route::Datagram => DATAGRAM,
        Route::Signal => SIGNAL,
        Route::FollowFd(id) => FOLLOW_FD | id,
        Route::Backlog(id) => BACKLOG_WRITE | id,
        Route::PipeWrite(id) => PIPE_WRITE | id,
        Route::Accept => ACCEPT,
        Route::StreamRead(id) => STREAM_READ | id,
        Route::StreamWrite(id) => STREAM_WRITE | id,
        Route::PtyRead(id) => PTY_READ | id,
        Route::PtyWrite(id) => PTY_WRITE | id,
        Route::Output(id) => id,
    }
}

impl Route {
    /// The number under which this operation is started.
    pub fn number(self) -> (number: u64)
        ensures
            number == number_of(self),
    {
        match self {
            Route::Datagram => DATAGRAM,
            Route::Signal => SIGNAL,
            Route::FollowFd(id) => FOLLOW_FD | id,
            Route::Backlog(id) => BACKLOG_WRITE | id,
            Route::PipeWrite(id) => PIPE_WRITE | id,
            Route::Accept => ACCEPT,
            Route::StreamRead(id) => STREAM_READ | id,
            Route::StreamWrite(id) => STREAM_WRITE | id,
            Route::PtyRead(id) => PTY_READ | id,
            Route::PtyWrite(id) => PTY_WRITE | id,
            Route::Output(id) => id,
        }
    }

    /// Whether the id in here leaves the marks alone, and an output's id is
    /// not one of the two reserved numbers.
    pub open spec fn in_range(self) -> bool {
        match self {
            Route::Datagram | Route::Signal | Route::Accept => true,
            Route::Output(id) => FIRST_OUTPUT <= id < ID_LIMIT,
            Route::FollowFd(id) => id < ID_LIMIT,
            Route::Backlog(id) => id < ID_LIMIT,
            Route::PipeWrite(id) => id < ID_LIMIT,
            Route::StreamRead(id) => id < ID_LIMIT,
            Route::StreamWrite(id) => id < ID_LIMIT,
            Route::PtyRead(id) => id < ID_LIMIT,
            Route::PtyWrite(id) => id < ID_LIMIT,
        }
    }
}

proof fn lemma_marks(id: u64)
    by (bit_vector)
    requires
        id < ID_LIMIT,
    ensures
        id & FOLLOW_FD == 0,
        id & BACKLOG_WRITE == 0,
        id & PIPE_WRITE == 0,
        id & STREAM_READ == 0,
        id & STREAM_WRITE == 0,
        id & PTY_READ == 0,
        id & PTY_WRITE == 0,
        id & PIPE_ID_MASK == id,
        id & SESSION_MASK == id,
{
}

proof fn lemma_marked(id: u64, mark: u64)
    by (bit_vector)
    requires
        id < ID_LIMIT,
        mark & ((mark - 1) as u64) == 0,
        mark >= ID_LIMIT,
    ensures
        (mark | id) >= ID_LIMIT,
        (mark | id) & mark != 0,
        (mark | id) & SESSION_MASK == id,
        mark & PIPE_ID_MASK == 0 ==> (mark | id) & PIPE_ID_MASK == id,
        mark != FOLLOW_FD ==> (mark | id) & FOLLOW_FD == 0,
        mark != BACKLOG_WRITE ==> (mark | id) & BACKLOG_WRITE == 0,
        mark != PIPE_WRITE ==> (mark | id) & PIPE_WRITE == 0,
        mark != STREAM_READ ==> (mark | id) & STREAM_READ == 0,
        mark != STREAM_WRITE ==> (mark | id) & STREAM_WRITE == 0,
        mark != PTY_READ ==> (mark | id) & PTY_READ == 0,
        mark != PTY_WRITE ==> (mark | id) & PTY_WRITE == 0,
        mark != ACCEPT ==> (mark | id) != ACCEPT,
{
}

proof fn lemma_mark_values()
    by (bit_vector)
    ensures
        FOLLOW_FD & ((FOLLOW_FD - 1) as u64) == 0,
        BACKLOG_WRITE & ((BACKLOG_WRITE - 1) as u64) == 0,
        PIPE_WRITE & ((PIPE_WRITE - 1) as u64) == 0,
        STREAM_READ & ((STREAM_READ - 1) as u64) == 0,
        STREAM_WRITE & ((STREAM_WRITE - 1) as u64) == 0,
        PTY_READ & ((PTY_READ - 1) as u64) == 0,
        PTY_WRITE & ((PTY_WRITE - 1) as u64) == 0,
        FOLLOW_FD & PIPE_ID_MASK == 0,
        BACKLOG_WRITE & PIPE_ID_MASK == 0,
        PIPE_WRITE & PIPE_ID_MASK == 0,
        ACCEPT & FOLLOW_FD == 0,
        ACCEPT & BACKLOG_WRITE == 0,
        ACCEPT & PIPE_WRITE == 0,
{
}

/// A completion reaches the handler of the operation that was started, with
/// the same id.
pub proof fn completions_find_their_handler(route: Route)
    requires
        route.in_range(),
    ensures
        route_of(number_of(route)) == route,
{
    lemma_mark_values();
    match route {
        Route::FollowFd(id) => lemma_marked(id, FOLLOW_FD),
        Route::Backlog(id) => lemma_marked(id, BACKLOG_WRITE),
        Route::PipeWrite(id) => lemma_marked(id, PIPE_WRITE),
        Route::StreamRead(id) => lemma_marked(id, STREAM_READ),
        Route::StreamWrite(id) => lemma_marked(id, STREAM_WRITE),
        Route::PtyRead(id) => lemma_marked(id, PTY_READ),
        Route::PtyWrite(id) => lemma_marked(id, PTY_WRITE),
        Route::Output(id) => lemma_marks(id),
        _ => {},
    }
}

/// Two operations in flight are told apart by their numbers.
pub proof fn numbers_are_distinct(a: Route, b: Route)
    requires
        a.in_range(),
        b.in_range(),
        a != b,
    ensures
        number_of(a) != number_of(b),
{
    completions_find_their_handler(a);
    completions_find_their_handler(b);
}

} // verus!
