//! A daemon driven by ring completions, without tasks.
//!
//! Every completion carries one number, which says what was completed and for
//! whom. The handlers here take a completion, update the state and say which
//! operations to start and which descriptors to close.

pub mod board;
pub mod ops;
pub mod receive;
pub mod route;
pub mod streams;

use vstd::prelude::*;

use crate::daemon;
use crate::frame;
use crate::frame::FRAME_EXIT;
use crate::log;
use crate::reactor::board::Board;
use crate::reactor::board::BoardState;
use crate::reactor::ops::Act;
use crate::reactor::ops::Op;
use crate::reactor::receive::ReceiveStep;
use crate::reactor::receive::Receiver;
use crate::reactor::route::Route;
use crate::reactor::streams::SessionTable;
use crate::reactor::streams::Sessions;
use crate::reactor::streams::StreamInput;

verus! {

/// Size of the submission ring.
pub const RING_SIZE: u32 = 1024;

/// The state of the daemon.
pub struct Reactor {
    pub board: Board,
    pub sessions: Sessions,
    pub receiver: Receiver,
}

/// What to do after a child was reaped.
pub struct ReapOutcome {
    /// The session whose client is told.
    pub told: Option<u64>,
    pub ops: Vec<Op>,
    /// The overlay directory to clean up.
    pub cleanup: Option<String>,
}

/// What is left to do after a completion, besides the operations.
pub enum Next {
    Nothing,
    /// Go on receiving datagrams.
    Receive(ReceiveStep),
    /// Reap every child that exited, if `reap` is set, then wait for the next
    /// signal.
    Signal { reap: bool },
    /// Decode and dispatch this frame from the client of a session.
    Frame { session: u64, ty: u8, payload: Vec<u8> },
}

/// What a completion calls for.
pub struct Completed {
    pub ops: Vec<Op>,
    pub next: Next,
}

impl Reactor {
    /// Whether a completion on `route` with result `ret`, and `buffer` as the
    /// buffer that was read into, can come in this state.
    pub open spec fn can_complete(&self, route: Route, ret: i32, buffer: Seq<u8>) -> bool {
        match route {
            Route::Datagram => {
                &&& self.receiver.phase is Peek ==> 0 <= ret
                &&& self.receiver.phase is Consume ==> ret <= self.receiver.buffer
            },
            Route::Accept => self.sessions@.next_id < u64::MAX,
            Route::StreamRead(id) => self.sessions@.open.contains_key(id) && ret > 0
                ==> buffer.len() == self.sessions@.open[id].wanted(),
            Route::PtyRead(_) => ret <= buffer.len(),
            Route::Output(id) => {
                &&& ret <= buffer.len()
                &&& ret > 0 ==> self.board@.lines_fit(id, buffer.take(ret as int))
            },
            Route::Backlog(id) => self.board@.next_pipe_id < u64::MAX && self.board@.follower_locks(
                id,
            ),
            _ => true,
        }
    }

    /// Handles one completion.
    pub fn complete(&mut self, number: u64, ret: i32, buffer: &[u8]) -> (out: Completed)
        requires
            old(self).wf(),
            old(self).can_complete(route::route_of(number), ret, buffer@),
        ensures
            final(self).wf(),
            ({
                let route = route::route_of(number);
                let acts = ops::acts(out.ops@);
                let s = old(self).sessions@;
                let b = old(self).board@;
                let same_sessions = final(self).sessions == old(self).sessions;
                let same_board = final(self).board == old(self).board;
                &&& !(route is Datagram) ==> final(self).receiver == old(self).receiver
                &&& match route {
                    Route::Datagram | Route::Signal => same_board && same_sessions && acts
                        == Seq::<Act>::empty(),
                    Route::FollowFd(id) => same_sessions && b.fd_passed(
                        id,
                        final(self).board@,
                        acts,
                    ),
                    Route::Backlog(id) => same_sessions && final(self).board@ == b.after_backlog(
                        id,
                        ret,
                    ) && b.answers_backlog(id, ret, acts),
                    Route::PipeWrite(id) => same_sessions && b.pipe_written(
                        id,
                        ret,
                        final(self).board@,
                        acts,
                    ),
                    Route::Output(id) => same_sessions && b.output_done(
                        id,
                        ret,
                        buffer@,
                        final(self).board@,
                        acts,
                    ),
                    Route::Accept => same_board && s.accepted(ret, final(self).sessions@, acts),
                    Route::StreamRead(id) => same_board && match out.next {
                        Next::Frame { session, ty, payload } => session == id && s.stream_read(
                            id,
                            ret,
                            buffer@,
                            final(self).sessions@,
                            acts,
                            Some((ty, payload@)),
                        ),
                        Next::Nothing => s.stream_read(
                            id,
                            ret,
                            buffer@,
                            final(self).sessions@,
                            acts,
                            None,
                        ),
                        _ => false,
                    },
                    Route::StreamWrite(id) => same_board && s.stream_written(
                        id,
                        ret,
                        final(self).sessions@,
                        acts,
                    ),
                    Route::PtyRead(id) => same_board && s.output_read(
                        id,
                        ret,
                        buffer@,
                        final(self).sessions@,
                        acts,
                    ),
                    Route::PtyWrite(id) => same_board && s.pty_written(
                        id,
                        ret,
                        final(self).sessions@,
                        acts,
                    ),
                }
                &&& match route {
                    Route::Datagram => final(self).receiver == old(self).receiver.after(ret)
                        && out.next == Next::Receive(old(self).receiver.step(ret)),
                    Route::Signal => out.next == (Next::Signal { reap: ret > 0 }),
                    Route::StreamRead(_) => true,
                    _ => out.next is Nothing,
                }
            }),
    {
        let mut ops: Vec<Op> = Vec::new();
        let mut next: Next = Next::Nothing;
        assert(ops::acts(ops@) =~= Seq::<Act>::empty());
        match route::route(number) {
            Route::Datagram => {
                next = Next::Receive(self.receiver.handle_datagram_cqe(ret));
            },
            Route::Signal => {
                next = Next::Signal { reap: ret > 0 };
            },
            Route::FollowFd(id) => {
                ops = self.board.complete_follow_fd_pass(id);
            },
            Route::Backlog(id) => {
                ops = self.board.complete_backlog_write(id, ret);
            },
            Route::PipeWrite(id) => {
                ops = self.board.complete_pipe_write(id, ret);
            },
            Route::Accept => {
                ops = self.sessions.handle_accept(ret);
            },
            Route::StreamRead(id) => {
                let input: StreamInput = self.sessions.handle_stream_read(id, ret, buffer);
                ops = input.ops;
                if let Some((ty, payload)) = input.frame {
                    next = Next::Frame { session: id, ty, payload };
                }
            },
            Route::StreamWrite(id) => {
                ops = self.sessions.handle_stream_write(id, ret);
            },
            Route::PtyRead(id) => {
                ops = self.sessions.handle_pty_read(id, ret, buffer);
            },
            Route::PtyWrite(id) => {
                ops = self.sessions.handle_pty_write(id, ret);
            },
            Route::Output(id) => {
                ops = self.board.handle_output(id, ret, buffer);
            },
        }
        Completed { ops, next }
    }

    pub open spec fn wf(&self) -> bool {
        self.board.wf() && self.sessions@.ids_fresh()
    }

    pub fn new() -> (reactor: Self)
        ensures
            reactor.wf(),
            reactor.board@ == BoardState::idle(),
            reactor.sessions@ == (SessionTable { open: Map::empty(), next_id: 0 }),
            reactor.receiver == (Receiver {
                phase: receive::RecvPhase::Peek,
                buffer: receive::INITIAL_BUFFER,
            }),
    {
        Reactor { board: Board::new(), sessions: Sessions::new(), receiver: Receiver::new() }
    }

    /// Handles the exit of child `pid`. The client in whose session it ran is
    /// told with `payload`. The container goes, and only its log is kept.
    pub fn reap_child(&mut self, pid: i32, payload: &[u8]) -> (out: ReapOutcome)
        requires
            old(self).wf(),
        ensures
            final(self).wf(),
            final(self).receiver == old(self).receiver,
            reaped(
                pid,
                out.told,
                frame::frame_bytes(FRAME_EXIT, payload@),
                (old(self).board@, old(self).sessions@),
                (final(self).board@, final(self).sessions@),
                ops::acts(out.ops@),
                daemon::text_of(out.cleanup),
            ),
    {
        let (told, mut ops) = self.sessions.child_exited(pid, payload);
        let (mut closing, cleanup) = self.board.remove_container(pid, told.is_some());
        let ghost first = ops@;
        let ghost second = closing@;
        ops.append(&mut closing);
        assert(ops::acts(ops@) =~= ops::acts(first) + ops::acts(second));
        ReapOutcome { told, ops, cleanup }
    }
}

/// Whether the state went from `before` to `after`, with these acts and this
/// overlay to clean up, because child `pid` exited and the client of session
/// `told`, if there is one, was to get the frame `exit`.
pub open spec fn reaped(
    pid: i32,
    told: Option<u64>,
    exit: Seq<u8>,
    before: (BoardState, SessionTable),
    after: (BoardState, SessionTable),
    acts: Seq<Act>,
    cleanup: Option<Seq<char>>,
) -> bool {
    let there = before.0.containers.contains_key(pid);
    let c = before.0.containers[pid];
    let closed = if there {
        ops::closes(log::open_fds(c.pipes))
    } else {
        Seq::empty()
    };
    &&& match told {
        Some(id) => {
            let s = before.1.open[id];
            &&& before.1.open.contains_key(id)
            &&& s.child_pid == pid
            &&& after.1 == before.1.set(id, Some(s.after_exit(exit)))
            &&& acts == s.on_exit(id, exit) + closed
        },
        None => !before.1.runs(pid) && after.1 == before.1 && acts == closed,
    }
    &&& after.0 == if !there {
        before.0
    } else if told is Some {
        before.0.buried(pid)
    } else {
        before.0.buried(pid).pipes_disowned(pid)
    }
    &&& cleanup == if there && !c.save {
        c.overlay_dir
    } else {
        None
    }
}

/// A child that exited leaves nothing running. Its container is gone and only
/// the log is kept; its followers' pipes are closed; its overlay is cleaned up
/// unless it was to be saved. The client in whose session it ran, and no other,
/// is told with the exit frame, at once or after the write that is outstanding.
pub proof fn exited_child_is_cleaned_up(
    pid: i32,
    told: Option<u64>,
    exit: Seq<u8>,
    before: (BoardState, SessionTable),
    after: (BoardState, SessionTable),
    acts: Seq<Act>,
    cleanup: Option<Seq<char>>,
    fd: i32,
)
    requires
        reaped(pid, told, exit, before, after, acts, cleanup),
    ensures
        !after.0.containers.contains_key(pid),
        after.0.stored_log(pid) == before.0.stored_log(pid),
        before.0.containers.contains_key(pid) ==> {
            let c = before.0.containers[pid];
            &&& c.save ==> cleanup is None
            &&& !c.save ==> cleanup == c.overlay_dir
            &&& fd >= 0 && (exists|i: int|
                0 <= i < c.pipes.len() && (#[trigger] c.pipes[i]).fd == fd) ==> acts.contains(
                Act::Close { fd },
            )
        },
        !before.0.containers.contains_key(pid) ==> after.0 == before.0 && cleanup is None,
        acts.len() == (if told is Some && !before.1.open[told->Some_0].stream_write_pending {
            1int
        } else {
            0
        }) + (if before.0.containers.contains_key(pid) {
            log::open_fds(before.0.containers[pid].pipes).len() as int
        } else {
            0
        }),
        told matches Some(id) ==> {
            let s = before.1.open[id];
            &&& before.1.open.contains_key(id) && s.child_pid == pid
            &&& after.1.open.contains_key(id) && after.1.open[id].child_exited
            &&& !s.stream_write_pending ==> acts.len() > 0 && acts[0] == (Act::Write {
                fd: s.stream_fd,
                bytes: exit,
                route: Route::StreamWrite(id),
            })
            &&& s.stream_write_pending ==> after.1.open[id].deferred_exit == Some(exit)
        },
        told is None ==> after.1 == before.1 && forall|id: u64|
            before.1.open.contains_key(id) ==> (#[trigger] before.1.open[id]).child_pid != pid,
{
    if before.0.containers.contains_key(pid) {
        let c = before.0.containers[pid];
        let fds = log::open_fds(c.pipes);
        let closed = ops::closes(fds);
        log::every_open_pipe_is_closed(c.pipes, fd);
        if fds.contains(fd) {
            let k = choose|k: int| 0 <= k < fds.len() && fds[k] == fd;
            assert(closed[k] == Act::Close { fd });
            assert(acts[acts.len() - closed.len() + k] == closed[k]);
        }
    }
}

} // verus!
