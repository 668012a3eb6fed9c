//! Sessions on the stream socket: one client, one container.

use std::collections::HashMap;

use vstd::prelude::*;
use vstd::std_specs::hash::*;

use crate::daemon;
use crate::daemon::sessions::ClientFrame;
use crate::frame;
use crate::frame::FRAME_DATA;
use crate::frame::FRAME_EXIT;
use crate::frame::FRAME_RESPONSE;
use crate::frame::HEADER_LEN;
use crate::lines;
use crate::protocol::RunArgs;
use crate::reactor::ops;
use crate::reactor::ops::push_close;
use crate::reactor::ops::push_op;
use crate::reactor::ops::Act;
use crate::reactor::ops::Op;
use crate::reactor::route::Route;

verus! {

broadcast use vstd::std_specs::hash::group_hash_axioms;

/// How much output is read at a time.
pub const OUTPUT_CHUNK: usize = 4096;

/// One client on the stream socket.
pub struct StreamSession {
    pub stream_fd: i32,
    /// The PTY master, or -1.
    pub ptm_fd: i32,
    /// Where output comes from when there is no PTY, or -1.
    pub log_read_fd: i32,
    pub child_pid: i32,
    pub child_exited: bool,
    /// Whether the outstanding stream read is for a header.
    pub reading_header: bool,
    pub frame_type: u8,
    pub frame_len: u16,
    /// The exit frame that goes out once the outstanding write has ended.
    pub deferred_exit: Option<Vec<u8>>,
    pub pty_write_pending: bool,
    pub stream_write_pending: bool,
}

/// A session as the contracts speak of it.
#[verifier::ext_equal]
pub struct Session {
    pub stream_fd: i32,
    pub ptm_fd: i32,
    pub log_read_fd: i32,
    pub child_pid: i32,
    pub child_exited: bool,
    pub reading_header: bool,
    pub frame_type: u8,
    pub frame_len: u16,
    pub deferred_exit: Option<Seq<u8>>,
    pub pty_write_pending: bool,
    pub stream_write_pending: bool,
}

impl View for StreamSession {
    type V = Session;

    open spec fn view(&self) -> Session {
        Session {
            stream_fd: self.stream_fd,
            ptm_fd: self.ptm_fd,
            log_read_fd: self.log_read_fd,
            child_pid: self.child_pid,
            child_exited: self.child_exited,
            reading_header: self.reading_header,
            frame_type: self.frame_type,
            frame_len: self.frame_len,
            deferred_exit: match self.deferred_exit {
                Some(frame) => Some(frame@),
                None => None,
            },
            pty_write_pending: self.pty_write_pending,
            stream_write_pending: self.stream_write_pending,
        }
    }
}

impl Session {
    /// The session of a client that has sent nothing yet.
    pub open spec fn fresh(stream_fd: i32) -> Session {
        Session {
            stream_fd,
            ptm_fd: -1i32,
            log_read_fd: -1i32,
            child_pid: 0,
            child_exited: false,
            reading_header: true,
            frame_type: 0,
            frame_len: 0,
            deferred_exit: None,
            pty_write_pending: false,
            stream_write_pending: false,
        }
    }

    /// The descriptors that go with the session, in the order they are closed.
    pub open spec fn fds(self) -> Seq<i32> {
        daemon::if_open(self.stream_fd) + daemon::if_open(self.ptm_fd) + daemon::if_open(
            self.log_read_fd,
        )
    }

    /// How many bytes the outstanding stream read asked for.
    pub open spec fn wanted(self) -> int {
        if self.reading_header {
            HEADER_LEN as int
        } else {
            self.frame_len as int
        }
    }

    /// Where output comes from: the PTY if there is one, else the log pipe.
    pub open spec fn source(self) -> i32 {
        if self.ptm_fd >= 0 {
            self.ptm_fd
        } else {
            self.log_read_fd
        }
    }

    /// The session while it reads the header of the next frame.
    pub open spec fn at_header(self) -> Session {
        Session { reading_header: true, ..self }
    }

    /// The session while it reads the payload that `header` announces.
    pub open spec fn at_payload(self, header: Seq<u8>) -> Session {
        Session {
            reading_header: false,
            frame_type: header[0],
            frame_len: frame::payload_len(header) as u16,
            ..self
        }
    }

    /// Telling the PTY the size that the client reported, where there is both.
    pub open spec fn resize(self, size: Option<(u16, u16)>) -> Seq<Act> {
        match size {
            Some((rows, cols)) if self.ptm_fd >= 0 => seq![
                Act::Resize { fd: self.ptm_fd, rows, cols },
            ],
            _ => Seq::empty(),
        }
    }

    /// The session while a frame is being written to the client.
    pub open spec fn writing(self) -> Session {
        Session { stream_write_pending: true, ..self }
    }

    /// Whether nothing of the container is left to deliver.
    pub open spec fn drained(self) -> bool {
        self.child_exited && self.source() < 0 && !self.pty_write_pending
    }

    /// The session after a write to the client ended, or nothing when it is
    /// over.
    pub open spec fn after_stream_write(self, ret: i32) -> Option<Session> {
        let s = Session { stream_write_pending: false, ..self };
        if ret < 0 {
            None
        } else if s.deferred_exit is Some {
            Some(Session { deferred_exit: None, stream_write_pending: true, ..s })
        } else if s.drained() {
            None
        } else {
            Some(s)
        }
    }

    /// What the end of a write to the client calls for: after an error the
    /// session is closed; an exit frame that waited goes out; else more output
    /// is read, or the drained session is closed.
    pub open spec fn on_stream_write(self, id: u64, ret: i32) -> Seq<Act> {
        if ret < 0 {
            ops::closes(self.fds())
        } else if let Some(exit) = self.deferred_exit {
            seq![
                Act::Write { fd: self.stream_fd, bytes: exit, route: Route::StreamWrite(id) },
            ]
        } else if self.source() >= 0 {
            seq![
                Act::Read { fd: self.source(), len: OUTPUT_CHUNK, route: Route::PtyRead(id) },
            ]
        } else if self.drained() {
            ops::closes(self.fds())
        } else {
            Seq::empty()
        }
    }

    /// The session after a read of output ended, or nothing when it is over.
    /// `output` is what was read.
    pub open spec fn after_output(self, ret: i32, output: Seq<u8>) -> Option<Session> {
        if ret > 0 {
            Some(self.writing())
        } else if self.child_exited {
            None
        } else {
            Some(Session { ptm_fd: -1i32, log_read_fd: -1i32, ..self })
        }
    }

    /// What the end of a read of output calls for: what was read goes to the
    /// client, and at the end of output its descriptors are closed.
    pub open spec fn on_output(self, id: u64, ret: i32, output: Seq<u8>) -> Seq<Act> {
        if ret > 0 {
            seq![
                Act::Write {
                    fd: self.stream_fd,
                    bytes: frame::frame_bytes(FRAME_DATA, output),
                    route: Route::StreamWrite(id),
                },
            ]
        } else {
            ops::closes(daemon::if_open(self.ptm_fd) + daemon::if_open(self.log_read_fd))
                + if self.child_exited {
                ops::closes(daemon::if_open(self.stream_fd))
            } else {
                Seq::empty()
            }
        }
    }

    /// The session after its child exited and `exit` is the frame that says so.
    /// While a write to the client is outstanding the frame is only kept.
    pub open spec fn after_exit(self, exit: Seq<u8>) -> Session {
        Session {
            child_exited: true,
            deferred_exit: if self.stream_write_pending {
                Some(exit)
            } else {
                self.deferred_exit
            },
            stream_write_pending: true,
            ..self
        }
    }

    /// What the exit of the child calls for.
    pub open spec fn on_exit(self, id: u64, exit: Seq<u8>) -> Seq<Act> {
        if self.stream_write_pending {
            Seq::empty()
        } else {
            seq![
                Act::Write { fd: self.stream_fd, bytes: exit, route: Route::StreamWrite(id) },
            ]
        }
    }
}

/// All sessions as the contracts speak of them.
#[verifier::ext_equal]
pub struct SessionTable {
    pub open: Map<u64, Session>,
    pub next_id: u64,
}

impl SessionTable {
    /// With session `id` as `s`, or without it.
    pub open spec fn set(self, id: u64, s: Option<Session>) -> SessionTable {
        SessionTable {
            open: match s {
                Some(s) => self.open.insert(id, s),
                None => self.open.remove(id),
            },
            ..self
        }
    }

    /// Whether child `pid` runs in some session.
    pub open spec fn runs(self, pid: i32) -> bool {
        exists|id: u64| #[trigger] self.open.contains_key(id) && self.open[id].child_pid == pid
    }

    /// Ids are handed out once.
    pub open spec fn ids_fresh(self) -> bool {
        forall|id: u64| #[trigger] self.open.contains_key(id) ==> id < self.next_id
    }
}

/// All sessions on the stream socket.
pub struct Sessions {
    open: HashMap<u64, StreamSession>,
    next_id: u64,
}

impl View for Sessions {
    type V = SessionTable;

    closed spec fn view(&self) -> SessionTable {
        SessionTable {
            open: self.open@.map_values(|s: StreamSession| s@),
            next_id: self.next_id,
        }
    }
}

/// What a completed stream read calls for.
pub struct StreamInput {
    pub ops: Vec<Op>,
    /// The frame that is now complete: its type and its payload.
    pub frame: Option<(u8, Vec<u8>)>,
}

/// What a client frame calls for.
pub struct FrameOutcome {
    pub ops: Vec<Op>,
    /// The container to start in this session.
    pub run: Option<RunArgs>,
}

/// A frame as the contracts speak of it.
pub open spec fn frame_view(frame: Option<(u8, Vec<u8>)>) -> Option<(u8, Seq<u8>)> {
    match frame {
        Some((ty, payload)) => Some((ty, payload@)),
        None => None,
    }
}

impl SessionTable {
    /// Whether nothing changed and nothing is to be done.
    pub open spec fn unmoved(self, after: SessionTable, acts: Seq<Act>) -> bool {
        after =~= self && acts =~= Seq::<Act>::empty()
    }

    /// Whether `after` and `acts` follow from an accept that came back with
    /// `ret`: a new session reads its first header, and the next client is
    /// waited for in any case.
    pub open spec fn accepted(self, ret: i32, after: SessionTable, acts: Seq<Act>) -> bool {
        if ret < 0 {
            after =~= self && acts =~= seq![Act::Accept]
        } else {
            let s = Session::fresh(ret);
            &&& after =~= (SessionTable {
                open: self.open.insert(self.next_id, s),
                next_id: (self.next_id + 1) as u64,
            })
            &&& acts =~= seq![header_read(self.next_id, s), Act::Accept]
        }
    }

    /// Whether `after`, `acts` and `frame` follow from a stream read of session
    /// `id` that came back with `ret`. After a header comes its payload; with
    /// the payload, or a header that announces none, the frame is complete. A
    /// stream that ended closes the session.
    pub open spec fn stream_read(
        self,
        id: u64,
        ret: i32,
        buffer: Seq<u8>,
        after: SessionTable,
        acts: Seq<Act>,
        frame: Option<(u8, Seq<u8>)>,
    ) -> bool {
        let s = self.open[id];
        if !self.open.contains_key(id) {
            self.unmoved(after, acts) && frame is None
        } else if ret <= 0 {
            &&& after =~= self.set(id, None)
            &&& acts =~= ops::closes(s.fds())
            &&& frame is None
        } else if !s.reading_header {
            self.unmoved(after, acts) && frame == Some((s.frame_type, buffer))
        } else if frame::payload_len(buffer) > 0 {
            &&& after =~= self.set(id, Some(s.at_payload(buffer)))
            &&& acts =~= seq![
                Act::Read {
                    fd: s.stream_fd,
                    len: frame::payload_len(buffer) as usize,
                    route: Route::StreamRead(id),
                },
            ]
            &&& frame is None
        } else {
            &&& after =~= self.set(id, Some(s.at_payload(buffer).at_header()))
            &&& acts =~= Seq::<Act>::empty()
            &&& frame == Some((buffer[0], Seq::<u8>::empty()))
        }
    }

    /// Whether `after` and `acts` follow from a read of session `id`'s output
    /// that came back with `ret`.
    pub open spec fn output_read(
        self,
        id: u64,
        ret: i32,
        buffer: Seq<u8>,
        after: SessionTable,
        acts: Seq<Act>,
    ) -> bool {
        let s = self.open[id];
        let output = buffer.take(if ret > 0 {
            ret as int
        } else {
            0
        });
        if self.open.contains_key(id) {
            after =~= self.set(id, s.after_output(ret, output)) && acts =~= s.on_output(
                id,
                ret,
                output,
            )
        } else {
            self.unmoved(after, acts)
        }
    }

    /// Whether `after` and `acts` follow from a write to the client of session
    /// `id` that came back with `ret`.
    pub open spec fn stream_written(
        self,
        id: u64,
        ret: i32,
        after: SessionTable,
        acts: Seq<Act>,
    ) -> bool {
        let s = self.open[id];
        if self.open.contains_key(id) {
            after =~= self.set(id, s.after_stream_write(ret)) && acts =~= s.on_stream_write(id, ret)
        } else {
            self.unmoved(after, acts)
        }
    }

    /// Whether `after` and `acts` follow from a write to the PTY of session
    /// `id` that came back with `ret`. After an error the PTY is closed.
    pub open spec fn pty_written(
        self,
        id: u64,
        ret: i32,
        after: SessionTable,
        acts: Seq<Act>,
    ) -> bool {
        let s = self.open[id];
        let fails = ret < 0 && s.ptm_fd >= 0;
        if self.open.contains_key(id) {
            &&& after =~= self.set(
                id,
                Some(
                    Session {
                        pty_write_pending: false,
                        ptm_fd: if fails {
                            -1i32
                        } else {
                            s.ptm_fd
                        },
                        ..s
                    },
                ),
            )
            &&& acts =~= if fails {
                seq![Act::Close { fd: s.ptm_fd }]
            } else {
                Seq::empty()
            }
        } else {
            self.unmoved(after, acts)
        }
    }
}

impl SessionTable {
    /// Whether `after`, `acts` and the container to `run` follow from `frame`,
    /// which came from the client of session `id`.
    pub open spec fn frame_taken(
        self,
        id: u64,
        frame: ClientFrame,
        after: SessionTable,
        acts: Seq<Act>,
        run: Option<RunArgs>,
    ) -> bool {
        let s = self.open[id];
        &&& !(frame is Request) ==> run is None
        &&& match frame {
            ClientFrame::Request(request) => {
                if request matches Some(r) && r is Run {
                    &&& after =~= self
                    &&& acts =~= Seq::<Act>::empty()
                    &&& run matches Some(args) && request->0.asks_to_run(args)
                } else {
                    &&& after =~= self.set(id, None)
                    &&& acts =~= ops::closes(s.fds())
                    &&& run is None
                }
            },
            ClientFrame::Data(data) => if data@.len() > 0 {
                &&& after =~= self.set(
                    id,
                    Some((Session { pty_write_pending: true, ..s }).at_header()),
                )
                &&& acts =~= seq![
                    Act::Write { fd: s.ptm_fd, bytes: data@, route: Route::PtyWrite(id) },
                    header_read(id, s),
                ]
            } else {
                &&& after =~= self.set(id, Some(s.at_header()))
                &&& acts =~= seq![header_read(id, s)]
            },
            ClientFrame::StdinEof => {
                &&& after =~= self.set(
                    id,
                    Some(
                        (Session {
                            ptm_fd: if s.ptm_fd >= 0 {
                                -1i32
                            } else {
                                s.ptm_fd
                            },
                            ..s
                        }).at_header(),
                    ),
                )
                &&& acts =~= ops::closes(daemon::if_open(s.ptm_fd)).push(header_read(id, s))
            },
            ClientFrame::WinSize(size) => {
                &&& after =~= self.set(id, Some(s.at_header()))
                &&& acts =~= s.resize(size).push(header_read(id, s))
            },
            ClientFrame::Unknown => {
                &&& after =~= self.set(id, None)
                &&& acts =~= ops::closes(s.fds())
            },
        }
    }
}

/// Reading the header of the next frame.
pub open spec fn header_read(id: u64, s: Session) -> Act {
    Act::Read { fd: s.stream_fd, len: HEADER_LEN, route: Route::StreamRead(id) }
}

impl Sessions {
    pub fn new() -> (sessions: Self)
        ensures
            sessions@ == (SessionTable { open: Map::empty(), next_id: 0 }),
            sessions@.ids_fresh(),
    {
        let sessions = Sessions { open: HashMap::new(), next_id: 0 };
        assert(sessions@.open =~= Map::<u64, Session>::empty());
        sessions
    }

    fn take(&mut self, id: u64) -> (s: Option<StreamSession>)
        ensures
            match s {
                Some(s) => old(self)@.open.contains_key(id) && s@ == old(self)@.open[id]
                    && final(self)@ == old(self)@.set(id, None),
                None => !old(self)@.open.contains_key(id) && final(self)@ == old(self)@,
            },
    {
        let s: Option<StreamSession> = self.open.remove(&id);
        assert(self@.open =~= old(self)@.open.remove(id));
        if s.is_none() {
            assert(self@.open =~= old(self)@.open);
        }
        s
    }

    fn put(&mut self, id: u64, s: StreamSession)
        ensures
            final(self)@ == old(self)@.set(id, Some(s@)),
    {
        let ghost view = s@;
        self.open.insert(id, s);
        assert(self@.open =~= old(self)@.open.insert(id, view));
    }

    /// Handles a completed accept: `ret` is the client's stream, or negative.
    pub fn handle_accept(&mut self, ret: i32) -> (out: Vec<Op>)
        requires
            old(self)@.next_id < u64::MAX,
        ensures
            old(self)@.accepted(ret, final(self)@, ops::acts(out@)),
            old(self)@.ids_fresh() ==> final(self)@.ids_fresh(),
    {
        let mut out: Vec<Op> = Vec::new();
        if ret >= 0 {
            let id: u64 = self.next_id;
            self.next_id = id + 1;
            self.put(
                id,
                StreamSession {
                    stream_fd: ret,
                    ptm_fd: -1,
                    log_read_fd: -1,
                    child_pid: 0,
                    child_exited: false,
                    reading_header: true,
                    frame_type: 0,
                    frame_len: 0,
                    deferred_exit: None,
                    pty_write_pending: false,
                    stream_write_pending: false,
                },
            );
            assert(self@.open[id] =~= Session::fresh(ret));
            push_op(
                &mut out,
                Op::Read { fd: ret, len: HEADER_LEN, route: Route::StreamRead(id) },
            );
        }
        push_op(&mut out, Op::Accept);
        assert(ret < 0 ==> ops::acts(out@) =~= seq![Act::Accept]);
        out
    }

    /// Closes session `id`, if it is open.
    pub fn close_attach_session(&mut self, id: u64) -> (out: Vec<Op>)
        ensures
            final(self)@ == old(self)@.set(id, None),
            ops::acts(out@) == if old(self)@.open.contains_key(id) {
                ops::closes(old(self)@.open[id].fds())
            } else {
                Seq::empty()
            },
            old(self)@.ids_fresh() ==> final(self)@.ids_fresh(),
    {
        let mut out: Vec<Op> = Vec::new();
        match self.take(id) {
            Some(s) => {
                push_close(&mut out, s.stream_fd);
                push_close(&mut out, s.ptm_fd);
                push_close(&mut out, s.log_read_fd);
                assert(ops::acts(out@) =~= ops::closes(s@.fds()));
            },
            None => {
                assert(self@.open =~= old(self)@.open.remove(id));
            },
        }
        out
    }

    /// Handles a completed stream read of session `id`. `buffer` is the whole
    /// buffer that was read into.
    pub fn handle_stream_read(&mut self, id: u64, ret: i32, buffer: &[u8]) -> (out: StreamInput)
        requires
            old(self)@.open.contains_key(id) && ret > 0 ==> buffer@.len()
                == old(self)@.open[id].wanted(),
        ensures
            old(self)@.ids_fresh() ==> final(self)@.ids_fresh(),
            old(self)@.stream_read(
                id,
                ret,
                buffer@,
                final(self)@,
                ops::acts(out.ops@),
                frame_view(out.frame),
            ),
    {
        let mut out: Vec<Op> = Vec::new();
        if ret <= 0 {
            out = self.close_attach_session(id);
            proof {
                if !old(self)@.open.contains_key(id) {
                    assert(self@.open =~= old(self)@.open);
                }
            }
            return StreamInput { ops: out, frame: None };
        }
        let mut s: StreamSession = match self.take(id) {
            Some(s) => s,
            None => {
                return StreamInput { ops: out, frame: None };
            },
        };
        let ghost before = s@;
        let mut complete: Option<(u8, Vec<u8>)> = None;
        if s.reading_header {
            s.frame_type = buffer[0];
            s.frame_len = buffer[1] as u16 + 256 * (buffer[2] as u16);
            let len: usize = s.frame_len as usize;
            if len == 0 {
                complete = Some((s.frame_type, Vec::new()));
            } else {
                s.reading_header = false;
                push_op(
                    &mut out,
                    Op::Read { fd: s.stream_fd, len, route: Route::StreamRead(id) },
                );
                assert(ops::acts(out@) =~= seq![
                    Act::Read { fd: before.stream_fd, len, route: Route::StreamRead(id) },
                ]);
            }
        } else {
            let payload: Vec<u8> = lines::copy_range(buffer, 0, buffer.len());
            assert(payload@ =~= buffer@);
            complete = Some((s.frame_type, payload));
        }
        let ghost after = s@;
        self.put(id, s);
        assert(self@.open =~= old(self)@.open.insert(id, after));
        StreamInput { ops: out, frame: complete }
    }
}

impl Sessions {
    /// Handles a complete frame from the client of session `id`.
    pub fn dispatch_frame(&mut self, id: u64, frame: ClientFrame) -> (out: FrameOutcome)
        requires
            old(self)@.open.contains_key(id),
        ensures
            old(self)@.ids_fresh() ==> final(self)@.ids_fresh(),
            old(self)@.frame_taken(id, frame, final(self)@, ops::acts(out.ops@), out.run),
            !(frame is Request) ==> out.run is None,
            ({
                let s = old(self)@.open[id];
                match frame {
                    ClientFrame::Request(request) => {
                        if request matches Some(r) && r is Run {
                            &&& final(self)@ == old(self)@
                            &&& ops::acts(out.ops@) == Seq::<Act>::empty()
                            &&& out.run matches Some(args) && request->0.asks_to_run(args)
                        } else {
                            &&& final(self)@ == old(self)@.set(id, None)
                            &&& ops::acts(out.ops@) == ops::closes(s.fds())
                            &&& out.run is None
                        }
                    },
                    ClientFrame::Data(data) => if data@.len() > 0 {
                        &&& final(self)@ == old(self)@.set(
                            id,
                            Some((Session { pty_write_pending: true, ..s }).at_header()),
                        )
                        &&& ops::acts(out.ops@) == seq![
                            Act::Write {
                                fd: s.ptm_fd,
                                bytes: data@,
                                route: Route::PtyWrite(id),
                            },
                            header_read(id, s),
                        ]
                    } else {
                        &&& final(self)@ == old(self)@.set(id, Some(s.at_header()))
                        &&& ops::acts(out.ops@) == seq![header_read(id, s)]
                    },
                    ClientFrame::StdinEof => {
                        &&& final(self)@ == old(self)@.set(
                            id,
                            Some(
                                (Session {
                                    ptm_fd: if s.ptm_fd >= 0 {
                                        -1i32
                                    } else {
                                        s.ptm_fd
                                    },
                                    ..s
                                }).at_header(),
                            ),
                        )
                        &&& ops::acts(out.ops@) == ops::closes(daemon::if_open(s.ptm_fd)).push(
                            header_read(id, s),
                        )
                    },
                    ClientFrame::WinSize(size) => {
                        &&& final(self)@ == old(self)@.set(id, Some(s.at_header()))
                        &&& ops::acts(out.ops@) == s.resize(size).push(header_read(id, s))
                    },
                    ClientFrame::Unknown => {
                        &&& final(self)@ == old(self)@.set(id, None)
                        &&& ops::acts(out.ops@) == ops::closes(s.fds())
                    },
                }
            }),
    {
        let mut out: Vec<Op> = Vec::new();
        let ghost before = self@.open[id];
        match frame {
            ClientFrame::Request(request) => {
                let run: Option<RunArgs> = match request {
                    Some(r) => r.run_args(),
                    None => None,
                };
                if run.is_none() {
                    out = self.close_attach_session(id);
                } else {
                    assert(ops::acts(out@) =~= Seq::<Act>::empty());
                }
                return FrameOutcome { ops: out, run };
            },
            ClientFrame::Unknown => {
                return FrameOutcome { ops: self.close_attach_session(id), run: None };
            },
            ClientFrame::Data(data) => {
                if let Some(mut s) = self.take(id) {
                    if data.len() > 0 {
                        s.pty_write_pending = true;
                        push_op(
                            &mut out,
                            Op::Write { fd: s.ptm_fd, bytes: data, route: Route::PtyWrite(id) },
                        );
                    }
                    self.next_header(id, s, &mut out);
                }
                assert(data@.len() > 0 ==> ops::acts(out@) =~= seq![
                    Act::Write {
                        fd: before.ptm_fd,
                        bytes: data@,
                        route: Route::PtyWrite(id),
                    },
                    header_read(id, before),
                ]);
                assert(data@.len() == 0 ==> ops::acts(out@) =~= seq![header_read(id, before)]);
            },
            ClientFrame::StdinEof => {
                if let Some(mut s) = self.take(id) {
                    push_close(&mut out, s.ptm_fd);
                    if s.ptm_fd >= 0 {
                        s.ptm_fd = -1;
                    }
                    self.next_header(id, s, &mut out);
                }
                assert(ops::acts(out@) =~= ops::closes(daemon::if_open(before.ptm_fd)).push(
                    header_read(id, before),
                ));
            },
            ClientFrame::WinSize(size) => {
                if let Some(s) = self.take(id) {
                    if let Some((rows, cols)) = size {
                        if s.ptm_fd >= 0 {
                            push_op(&mut out, Op::Resize { fd: s.ptm_fd, rows, cols });
                        }
                    }
                    self.next_header(id, s, &mut out);
                }
                assert(ops::acts(out@) =~= before.resize(size).push(header_read(id, before)));
            },
        }
        FrameOutcome { ops: out, run: None }
    }

    /// Puts session `id` back, to read the header of its next frame.
    fn next_header(&mut self, id: u64, s: StreamSession, out: &mut Vec<Op>)
        requires
            !old(self)@.open.contains_key(id),
        ensures
            final(self)@ == old(self)@.set(id, Some(s@.at_header())),
            ops::acts(final(out)@) == ops::acts(old(out)@).push(header_read(id, s@)),
    {
        let mut s = s;
        s.reading_header = true;
        push_op(
            out,
            Op::Read { fd: s.stream_fd, len: HEADER_LEN, route: Route::StreamRead(id) },
        );
        self.put(id, s);
    }

    /// Records that container `pid` was started in session `id`, and tells the
    /// client so with `payload`. Its output comes from `ptm_fd` or, when that
    /// is negative, from `log_read_fd`.
    pub fn run_started(
        &mut self,
        id: u64,
        pid: i32,
        ptm_fd: i32,
        log_read_fd: i32,
        payload: &[u8],
    ) -> (out: Vec<Op>)
        requires
            old(self)@.open.contains_key(id),
        ensures
            old(self)@.ids_fresh() ==> final(self)@.ids_fresh(),
            ({
                let s = old(self)@.open[id];
                let reply = frame::frame_bytes(FRAME_RESPONSE, payload@);
                &&& final(self)@ == old(self)@.set(
                    id,
                    Some(
                        (Session { child_pid: pid, ptm_fd, log_read_fd, ..s }).writing().at_header(),
                    ),
                )
                &&& ops::acts(out@) == seq![
                    Act::Write { fd: s.stream_fd, bytes: reply, route: Route::StreamWrite(id) },
                    header_read(id, s),
                ]
            }),
    {
        let mut out: Vec<Op> = Vec::new();
        let ghost before = self@.open[id];
        let ghost reply = frame::frame_bytes(FRAME_RESPONSE, payload@);
        if let Some(mut s) = self.take(id) {
            s.child_pid = pid;
            s.ptm_fd = ptm_fd;
            s.log_read_fd = log_read_fd;
            send_frame(&mut s, id, FRAME_RESPONSE, payload, &mut out);
            self.next_header(id, s, &mut out);
        }
        assert(ops::acts(out@) =~= seq![
            Act::Write { fd: before.stream_fd, bytes: reply, route: Route::StreamWrite(id) },
            header_read(id, before),
        ]);
        out
    }

    /// Tells the client of session `id` with `payload` that no container was
    /// started, and closes the session.
    pub fn run_failed(&mut self, id: u64, payload: &[u8]) -> (out: Vec<Op>)
        ensures
            old(self)@.ids_fresh() ==> final(self)@.ids_fresh(),
            final(self)@ == old(self)@.set(id, None),
            ops::acts(out@) == if old(self)@.open.contains_key(id) {
                let s = old(self)@.open[id];
                seq![
                    Act::Send {
                        fd: s.stream_fd,
                        bytes: frame::frame_bytes(FRAME_RESPONSE, payload@),
                    },
                ] + ops::closes(s.fds())
            } else {
                Seq::empty()
            },
    {
        let mut out: Vec<Op> = Vec::new();
        let stream_fd: i32 = match self.open.get(&id) {
            Some(s) => s.stream_fd,
            None => {
                assert(self@.open.remove(id) =~= self@.open);
                assert(ops::acts(out@) =~= Seq::<Act>::empty());
                return out;
            },
        };
        push_op(
            &mut out,
            Op::Send { fd: stream_fd, bytes: frame::build_frame(FRAME_RESPONSE, payload) },
        );
        let mut closing: Vec<Op> = self.close_attach_session(id);
        let ghost sent = out@;
        let ghost closed = closing@;
        out.append(&mut closing);
        assert(ops::acts(out@) =~= ops::acts(sent) + ops::acts(closed));
        assert(ops::acts(sent) =~= seq![
            Act::Send {
                fd: stream_fd,
                bytes: frame::frame_bytes(FRAME_RESPONSE, payload@),
            },
        ]);
        out
    }

    /// Handles a completed read of session `id`'s output. `buffer` is the
    /// buffer that was read into.
    ///
    /// No further output is read before the client took this.
    pub fn handle_pty_read(&mut self, id: u64, ret: i32, buffer: &[u8]) -> (out: Vec<Op>)
        requires
            ret <= buffer@.len(),
        ensures
            old(self)@.ids_fresh() ==> final(self)@.ids_fresh(),
            old(self)@.output_read(id, ret, buffer@, final(self)@, ops::acts(out@)),
    {
        let mut out: Vec<Op> = Vec::new();
        let mut s: StreamSession = match self.take(id) {
            Some(s) => s,
            None => {
                assert(ops::acts(out@) =~= Seq::<Act>::empty());
                return out;
            },
        };
        let ghost before = s@;
        if ret > 0 {
            let output: Vec<u8> = lines::copy_range(buffer, 0, ret as usize);
            assert(output@ =~= buffer@.take(ret as int));
            send_frame(&mut s, id, FRAME_DATA, output.as_slice(), &mut out);
            self.put(id, s);
            assert(ops::acts(out@) =~= before.on_output(id, ret, output@));
        } else {
            push_close(&mut out, s.ptm_fd);
            push_close(&mut out, s.log_read_fd);
            if s.child_exited {
                push_close(&mut out, s.stream_fd);
            } else {
                s.ptm_fd = -1;
                s.log_read_fd = -1;
                self.put(id, s);
            }
            assert(ops::acts(out@) =~= before.on_output(id, ret, buffer@.take(0)));
        }
        out
    }
}

impl Sessions {
    /// Handles a completed write to the client of session `id`.
    pub fn handle_stream_write(&mut self, id: u64, ret: i32) -> (out: Vec<Op>)
        ensures
            old(self)@.ids_fresh() ==> final(self)@.ids_fresh(),
            old(self)@.stream_written(id, ret, final(self)@, ops::acts(out@)),
    {
        let mut out: Vec<Op> = Vec::new();
        let mut s: StreamSession = match self.take(id) {
            Some(s) => s,
            None => {
                assert(ops::acts(out@) =~= Seq::<Act>::empty());
                return out;
            },
        };
        let ghost before = s@;
        s.stream_write_pending = false;
        let source: i32 = if s.ptm_fd >= 0 {
            s.ptm_fd
        } else {
            s.log_read_fd
        };
        if ret < 0 {
            push_close(&mut out, s.stream_fd);
            push_close(&mut out, s.ptm_fd);
            push_close(&mut out, s.log_read_fd);
            assert(ops::acts(out@) =~= ops::closes(before.fds()));
        } else if let Some(bytes) = s.deferred_exit.take() {
            s.stream_write_pending = true;
            push_op(
                &mut out,
                Op::Write { fd: s.stream_fd, bytes, route: Route::StreamWrite(id) },
            );
            self.put(id, s);
        } else if source >= 0 {
            push_op(
                &mut out,
                Op::Read { fd: source, len: OUTPUT_CHUNK, route: Route::PtyRead(id) },
            );
            self.put(id, s);
        } else if s.child_exited && !s.pty_write_pending {
            push_close(&mut out, s.stream_fd);
            push_close(&mut out, s.ptm_fd);
            push_close(&mut out, s.log_read_fd);
            assert(ops::acts(out@) =~= ops::closes(before.fds()));
        } else {
            self.put(id, s);
        }
        assert(ops::acts(out@) =~= before.on_stream_write(id, ret));
        out
    }

    /// Handles a completed write to the PTY of session `id`. After an error
    /// the PTY is closed.
    pub fn handle_pty_write(&mut self, id: u64, ret: i32) -> (out: Vec<Op>)
        ensures
            old(self)@.ids_fresh() ==> final(self)@.ids_fresh(),
            old(self)@.pty_written(id, ret, final(self)@, ops::acts(out@)),
    {
        let mut out: Vec<Op> = Vec::new();
        let mut s: StreamSession = match self.take(id) {
            Some(s) => s,
            None => {
                assert(ops::acts(out@) =~= Seq::<Act>::empty());
                return out;
            },
        };
        let ghost before = s@;
        s.pty_write_pending = false;
        if ret < 0 && s.ptm_fd >= 0 {
            push_op(&mut out, Op::Close { fd: s.ptm_fd });
            s.ptm_fd = -1;
            assert(ops::acts(out@) =~= seq![Act::Close { fd: before.ptm_fd }]);
        } else {
            assert(ops::acts(out@) =~= Seq::<Act>::empty());
        }
        self.put(id, s);
        out
    }

    /// A session in which child `pid` runs, if there is one.
    fn session_of(&self, pid: i32) -> (id: Option<u64>)
        ensures
            match id {
                Some(id) => self@.open.contains_key(id) && self@.open[id].child_pid == pid,
                None => !self@.runs(pid),
            },
    {
        let ghost open = self.open@;
        for entry in it: self.open.iter()
            invariant
                open == self.open@,
                it.seq().len() == open.dom().len(),
                forall|k: int|
                    0 <= k < it.seq().len() ==> open.contains_key(*(#[trigger] it.seq()[k]).0)
                        && open[*it.seq()[k].0] == *it.seq()[k].1,
                forall|id: u64| #[trigger]
                    open.contains_key(id) ==> it.seq().contains((&id, &open[id])),
                forall|k: int| 0 <= k < it.index() ==> (#[trigger] it.seq()[k]).1.child_pid != pid,
        {
            if entry.1.child_pid == pid {
                return Some(*entry.0);
            }
        }
        assert forall|id: u64| #[trigger] self@.open.contains_key(id) implies self@.open[id].child_pid
            != pid by {
            assert(open.contains_key(id));
        }
        None
    }

    /// Records that child `pid` exited. A session in which it ran is marked,
    /// and its client is told with `payload`, at once or after the write that
    /// is outstanding. The session's id comes back.
    pub fn child_exited(&mut self, pid: i32, payload: &[u8]) -> (out: (Option<u64>, Vec<Op>))
        ensures
            old(self)@.ids_fresh() ==> final(self)@.ids_fresh(),
            match out.0 {
                Some(id) => {
                    let s = old(self)@.open[id];
                    let exit = frame::frame_bytes(FRAME_EXIT, payload@);
                    &&& old(self)@.open.contains_key(id)
                    &&& s.child_pid == pid
                    &&& final(self)@ == old(self)@.set(id, Some(s.after_exit(exit)))
                    &&& ops::acts(out.1@) == s.on_exit(id, exit)
                },
                None => {
                    &&& !old(self)@.runs(pid)
                    &&& final(self)@ == old(self)@
                    &&& ops::acts(out.1@) == Seq::<Act>::empty()
                },
            },
    {
        let mut out: Vec<Op> = Vec::new();
        let found: Option<u64> = self.session_of(pid);
        if let Some(id) = found {
            if let Some(mut s) = self.take(id) {
                let ghost before = s@;
                s.child_exited = true;
                if !s.stream_write_pending {
                    send_frame(&mut s, id, FRAME_EXIT, payload, &mut out);
                } else {
                    s.deferred_exit = Some(frame::build_frame(FRAME_EXIT, payload));
                }
                assert(ops::acts(out@) =~= before.on_exit(
                    id,
                    frame::frame_bytes(FRAME_EXIT, payload@),
                ));
                assert(s@ =~= before.after_exit(frame::frame_bytes(FRAME_EXIT, payload@)));
                self.put(id, s);
            }
        } else {
            assert(ops::acts(out@) =~= Seq::<Act>::empty());
        }
        (found, out)
    }
}

/// The exit code is told once. A frame that could not go out when the child
/// exited goes out as soon as the write before it ended; one that went out at
/// once, or went out then, is not written again when a write ends.
pub proof fn exit_frame_goes_out(s: Session, id: u64, payload: Seq<u8>, ret: i32, next_ret: i32)
    requires
        ret >= 0,
        s.deferred_exit is None,
    ensures
        ({
            let exit = frame::frame_bytes(FRAME_EXIT, payload);
            let write = seq![
                Act::Write { fd: s.stream_fd, bytes: exit, route: Route::StreamWrite(id) },
            ];
            let told = s.after_exit(exit);
            let later = told.after_stream_write(ret);
            &&& !s.stream_write_pending ==> {
                &&& s.on_exit(id, exit) == write
                &&& writes_nothing(told.on_stream_write(id, ret))
                &&& later matches Some(next) ==> next.deferred_exit is None
            }
            &&& s.stream_write_pending ==> {
                &&& s.on_exit(id, exit) == Seq::<Act>::empty()
                &&& told.on_stream_write(id, ret) == write
                &&& later matches Some(next) && next.deferred_exit is None && writes_nothing(
                    next.on_stream_write(id, next_ret),
                )
            }
        }),
{
}

/// No act is a write to a client.
pub open spec fn writes_nothing(acts: Seq<Act>) -> bool {
    forall|i: int| 0 <= i < acts.len() ==> !((#[trigger] acts[i]) is Write)
}

/// A client that does not read holds its container back: output that was read
/// starts a write and no further read, and the read that follows it waits for
/// the end of that write, and of that of an exit frame which waited for it.
pub proof fn output_waits_for_client(s: Session, id: u64, output: Seq<u8>, ret: i32)
    requires
        output.len() > 0,
        ret > 0,
        s.source() >= 0,
    ensures
        forall|i: int|
            0 <= i < s.on_output(id, ret, output).len() ==> !((#[trigger] s.on_output(
                id,
                ret,
                output,
            )[i]) is Read),
        s.after_output(ret, output) matches Some(next) && next.stream_write_pending && {
            let read = seq![
                Act::Read { fd: s.source(), len: OUTPUT_CHUNK, route: Route::PtyRead(id) },
            ];
            match s.deferred_exit {
                None => next.on_stream_write(id, 0) == read,
                Some(exit) => {
                    &&& next.on_stream_write(id, 0) == seq![
                        Act::Write {
                            fd: s.stream_fd,
                            bytes: exit,
                            route: Route::StreamWrite(id),
                        },
                    ]
                    &&& next.after_stream_write(0) matches Some(last) && last.on_stream_write(
                        id,
                        0,
                    ) == read
                },
            }
        },
{
}

/// The output of a child that exited is delivered before the session is
/// closed: while there is output to read, the end of a write does not close
/// it.
pub proof fn exited_session_is_drained_first(s: Session, ret: i32)
    requires
        ret >= 0,
        s.after_stream_write(ret) is None,
    ensures
        s.child_exited,
        s.ptm_fd < 0,
        s.log_read_fd < 0,
        !s.pty_write_pending,
{
}

/// Starts the write of a frame to the client of session `id`.
fn send_frame(s: &mut StreamSession, id: u64, ty: u8, payload: &[u8], out: &mut Vec<Op>)
    ensures
        final(s)@ == old(s)@.writing(),
        ops::acts(final(out)@) == ops::acts(old(out)@).push(
            Act::Write {
                fd: old(s).stream_fd,
                bytes: frame::frame_bytes(ty, payload@),
                route: Route::StreamWrite(id),
            },
        ),
{
    s.stream_write_pending = true;
    push_op(
        out,
        Op::Write {
            fd: s.stream_fd,
            bytes: frame::build_frame(ty, payload),
            route: Route::StreamWrite(id),
        },
    );
}

/// Replacing or closing one session leaves every other one as it was.
pub proof fn sessions_are_separate(t: SessionTable, id: u64, s: Option<Session>, other: u64)
    requires
        other != id,
    ensures
        t.set(id, s).open.contains_key(id) <==> s is Some,
        s matches Some(session) ==> t.set(id, s).open[id] == session,
        t.set(id, s).open.contains_key(other) == t.open.contains_key(other),
        t.set(id, s).open[other] == t.open[other],
        t.set(id, s).next_id == t.next_id,
{
}

/// A session's output comes from its PTY exactly when it has one, else from the
/// log pipe, and window sizes go to that PTY, rows before columns.
pub proof fn session_speaks_to_its_pty(s: Session, rows: u16, cols: u16)
    ensures
        s.ptm_fd >= 0 ==> s.source() == s.ptm_fd,
        s.ptm_fd < 0 ==> s.source() == s.log_read_fd,
        s.ptm_fd >= 0 ==> s.resize(Some((rows, cols))) == seq![
            Act::Resize { fd: s.ptm_fd, rows, cols },
        ],
        s.ptm_fd < 0 ==> s.resize(Some((rows, cols))).len() == 0,
        s.resize(None).len() == 0,
{
}

/// A session that goes closes all its descriptors that are open, and no others.
pub proof fn gone_session_leaks_nothing(s: Session, fd: i32)
    ensures
        s.fds().contains(fd) <==> fd >= 0 && (fd == s.stream_fd || fd == s.ptm_fd || fd
            == s.log_read_fd),
        ops::closes(s.fds()).contains(Act::Close { fd }) <==> s.fds().contains(fd),
        s.fds().len() == (if s.stream_fd >= 0 {
            1int
        } else {
            0
        }) + (if s.ptm_fd >= 0 {
            1int
        } else {
            0
        }) + (if s.log_read_fd >= 0 {
            1int
        } else {
            0
        }),
{
    let fds = s.fds();
    let a = daemon::if_open(s.stream_fd);
    let b = daemon::if_open(s.ptm_fd);
    if fd >= 0 && fd == s.stream_fd {
        assert(fds[0] == fd);
    } else if fd >= 0 && fd == s.ptm_fd {
        assert(fds[a.len() as int] == fd);
    } else if fd >= 0 && fd == s.log_read_fd {
        assert(fds[(a + b).len() as int] == fd);
    }
    if fds.contains(fd) {
        let k = choose|k: int| 0 <= k < fds.len() && fds[k] == fd;
        assert(ops::closes(fds)[k] == Act::Close { fd });
    }
    if ops::closes(fds).contains(Act::Close { fd }) {
        let k = choose|k: int|
            0 <= k < ops::closes(fds).len() && ops::closes(fds)[k] == (Act::Close { fd });
        assert(fds[k] == fd);
    }
}

/// A client that connects gets a session of its own, with nothing but its
/// stream, from which the three bytes of a first header are read. Whether a
/// client came or not, the next one is waited for.
pub proof fn client_is_admitted(t: SessionTable, ret: i32, after: SessionTable, acts: Seq<Act>)
    requires
        t.accepted(ret, after, acts),
        t.ids_fresh(),
        t.next_id < u64::MAX,
    ensures
        acts.len() > 0 && acts.last() == Act::Accept,
        ret < 0 ==> after == t && acts.len() == 1,
        ret >= 0 ==> {
            let s = after.open[t.next_id];
            &&& !t.open.contains_key(t.next_id)
            &&& after.open.contains_key(t.next_id)
            &&& after.next_id == t.next_id + 1
            &&& s.stream_fd == ret && s.ptm_fd < 0 && s.log_read_fd < 0 && s.child_pid == 0
            &&& !s.child_exited && s.reading_header && s.deferred_exit is None
            &&& !s.pty_write_pending && !s.stream_write_pending
            &&& acts == seq![
                Act::Read { fd: ret, len: 3, route: Route::StreamRead(t.next_id) },
                Act::Accept,
            ]
            &&& s.wanted() == 3
        },
{
}

/// A frame comes through as it was sent: once its header was read, as many
/// bytes as the payload has are asked for, and with them the frame is complete.
/// A frame without payload is complete with its header.
pub proof fn frame_comes_through(
    t: SessionTable,
    id: u64,
    ty: u8,
    payload: Seq<u8>,
    mid: SessionTable,
    acts: Seq<Act>,
    got: Option<(u8, Seq<u8>)>,
    after: SessionTable,
    last_acts: Seq<Act>,
    frame: Option<(u8, Seq<u8>)>,
)
    requires
        t.open.contains_key(id),
        t.open[id].reading_header,
        payload.len() <= 65535,
        t.stream_read(id, 3, frame::frame_bytes(ty, payload).take(3), mid, acts, got),
        payload.len() > 0 ==> mid.stream_read(
            id,
            payload.len() as i32,
            payload,
            after,
            last_acts,
            frame,
        ),
    ensures
        payload.len() == 0 ==> got == Some((ty, payload)) && acts.len() == 0
            && mid.open.contains_key(id) && mid.open[id].reading_header,
        payload.len() > 0 ==> {
            &&& got is None
            &&& acts == seq![
                Act::Read {
                    fd: t.open[id].stream_fd,
                    len: payload.len() as usize,
                    route: Route::StreamRead(id),
                },
            ]
            &&& mid.open[id].wanted() == payload.len()
            &&& frame == Some((ty, payload))
            &&& last_acts.len() == 0
            &&& after == mid
        },
        mid.open[id] == (Session {
            reading_header: mid.open[id].reading_header,
            frame_type: ty,
            frame_len: payload.len() as u16,
            ..t.open[id]
        }),
{
    frame::frame_layout(ty, payload);
    let header = frame::frame_bytes(ty, payload).take(3);
    assert(header[1] + 256 * header[2] == payload.len());
    assert(frame::payload_len(header) == payload.len());
    if payload.len() == 0 {
        assert(payload =~= Seq::<u8>::empty());
    }
}

/// A client that hung up takes its session along, with all its descriptors.
pub proof fn hung_up_client_ends_its_session(
    t: SessionTable,
    id: u64,
    ret: i32,
    buffer: Seq<u8>,
    after: SessionTable,
    acts: Seq<Act>,
    frame: Option<(u8, Seq<u8>)>,
)
    requires
        t.open.contains_key(id),
        ret <= 0,
        t.stream_read(id, ret, buffer, after, acts, frame),
    ensures
        !after.open.contains_key(id),
        frame is None,
        acts == ops::closes(t.open[id].fds()),
{
}

/// What a client types goes to its PTY, unchanged and once, and then the next
/// frame is read. The end of input closes the PTY; a window size is passed on;
/// a request that starts nothing, and a frame of no known kind, end the
/// session.
pub proof fn client_frame_is_taken(
    t: SessionTable,
    id: u64,
    frame: ClientFrame,
    after: SessionTable,
    acts: Seq<Act>,
    run: Option<RunArgs>,
)
    requires
        t.open.contains_key(id),
        t.frame_taken(id, frame, after, acts, run),
    ensures
        ({
            let s = t.open[id];
            let next = Act::Read { fd: s.stream_fd, len: 3, route: Route::StreamRead(id) };
            &&& frame matches ClientFrame::Data(data) ==> {
                &&& acts.last() == next
                &&& data@.len() > 0 ==> acts.len() == 2 && acts[0] == (Act::Write {
                    fd: s.ptm_fd,
                    bytes: data@,
                    route: Route::PtyWrite(id),
                }) && after.open[id].pty_write_pending
                &&& data@.len() == 0 ==> acts.len() == 1
                &&& after.open.contains_key(id)
                &&& after.open[id] == (Session {
                    reading_header: true,
                    pty_write_pending: s.pty_write_pending || data@.len() > 0,
                    ..s
                })
            }
            &&& frame is StdinEof ==> {
                &&& acts.last() == next
                &&& s.ptm_fd >= 0 ==> acts.len() == 2 && acts[0] == (Act::Close { fd: s.ptm_fd })
                &&& s.ptm_fd < 0 ==> acts.len() == 1
                &&& after.open.contains_key(id) && after.open[id].ptm_fd < 0
                &&& after.open[id] == (Session {
                    reading_header: true,
                    ptm_fd: after.open[id].ptm_fd,
                    ..s
                })
            }
            &&& frame matches ClientFrame::WinSize(size) ==> {
                &&& acts.last() == next
                &&& size matches Some((rows, cols)) ==> if s.ptm_fd >= 0 {
                    acts.len() == 2 && acts[0] == (Act::Resize { fd: s.ptm_fd, rows, cols })
                } else {
                    acts.len() == 1
                }
                &&& size is None ==> acts.len() == 1
                &&& after.open.contains_key(id)
                &&& after.open[id] == (Session { reading_header: true, ..s })
            }
            &&& run is Some <==> (frame matches ClientFrame::Request(Some(request)) && request
                is Run)
            &&& run matches Some(args) ==> (frame matches ClientFrame::Request(Some(request))
                && request.asks_to_run(args))
            &&& run is Some ==> after == t && acts.len() == 0
            &&& frame is Unknown || (frame is Request && run is None) ==> !after.open.contains_key(
                id,
            ) && acts == ops::closes(s.fds())
            &&& after.open.contains_key(id) ==> after.open[id].reading_header || run is Some
        }),
{
}

/// Output of the container goes to its client as one data frame, of exactly the
/// bytes that were read. At its end the descriptors it came from are closed and
/// forgotten; the session stays until the child has exited.
pub proof fn output_reaches_the_client(
    t: SessionTable,
    id: u64,
    ret: i32,
    buffer: Seq<u8>,
    after: SessionTable,
    acts: Seq<Act>,
    fd: i32,
)
    requires
        t.open.contains_key(id),
        t.output_read(id, ret, buffer, after, acts),
        ret <= buffer.len(),
        ret <= 65535,
    ensures
        ({
            let s = t.open[id];
            &&& ret > 0 ==> {
                &&& acts.len() == 1
                &&& acts[0] matches Act::Write { fd, bytes, route } && fd == s.stream_fd && route
                    == Route::StreamWrite(id) && bytes.len() == 3 + ret && bytes[0] == 0x10
                    && bytes[1] + 256 * bytes[2] == ret && bytes.skip(3) == buffer.take(
                    ret as int,
                )
                &&& after.open.contains_key(id)
                &&& after.open[id] == (Session { stream_write_pending: true, ..s })
            }
            &&& ret <= 0 ==> {
                &&& acts.contains(Act::Close { fd }) <==> fd >= 0 && (fd == s.ptm_fd || fd
                    == s.log_read_fd || (fd == s.stream_fd && s.child_exited))
                &&& after.open.contains_key(id) <==> !s.child_exited
                &&& !s.child_exited ==> after.open[id].ptm_fd < 0 && after.open[id].log_read_fd < 0
                    && after.open[id] == (Session {
                    ptm_fd: after.open[id].ptm_fd,
                    log_read_fd: after.open[id].log_read_fd,
                    ..s
                })
            }
        }),
{
    let s = t.open[id];
    if ret > 0 {
        let output = buffer.take(ret as int);
        frame::frame_layout(FRAME_DATA, output);
        frame::frame_types();
        assert(frame::frame_bytes(FRAME_DATA, output).skip(3) =~= output);
    } else {
        let a = daemon::if_open(s.ptm_fd);
        let b = daemon::if_open(s.log_read_fd);
        let c = if s.child_exited {
            daemon::if_open(s.stream_fd)
        } else {
            Seq::empty()
        };
        assert(acts =~= ops::closes(a + b + c));
        if fd >= 0 && fd == s.ptm_fd {
            assert(acts[0] == Act::Close { fd });
        } else if fd >= 0 && fd == s.log_read_fd {
            assert(acts[a.len() as int] == Act::Close { fd });
        } else if fd >= 0 && fd == s.stream_fd && s.child_exited {
            assert(acts[(a + b).len() as int] == Act::Close { fd });
        }
        if acts.contains(Act::Close { fd }) {
            let k = choose|k: int| 0 <= k < acts.len() && acts[k] == (Act::Close { fd });
            assert((a + b + c)[k] == fd);
        }
    }
}

/// After a write to its client a session goes on: a failed write ends it; an
/// exit frame that waited is written; else more output is read from where it
/// comes. Only with the child gone, its output at an end and nothing left to
/// write to the PTY is the session closed.
pub proof fn session_goes_on_after_a_write(s: Session, id: u64, ret: i32)
    ensures
        ret < 0 ==> s.after_stream_write(ret) is None && s.on_stream_write(id, ret) == ops::closes(
            s.fds(),
        ),
        ret >= 0 ==> match s.deferred_exit {
            Some(exit) => {
                &&& s.on_stream_write(id, ret) == seq![
                    Act::Write { fd: s.stream_fd, bytes: exit, route: Route::StreamWrite(id) },
                ]
                &&& s.after_stream_write(ret) == Some(
                    Session { deferred_exit: None, stream_write_pending: true, ..s },
                )
            },
            None => {
                let over = s.child_exited && s.ptm_fd < 0 && s.log_read_fd < 0
                    && !s.pty_write_pending;
                &&& s.ptm_fd >= 0 ==> s.on_stream_write(id, ret) == seq![
                    Act::Read { fd: s.ptm_fd, len: 4096, route: Route::PtyRead(id) },
                ]
                &&& s.ptm_fd < 0 && s.log_read_fd >= 0 ==> s.on_stream_write(id, ret) == seq![
                    Act::Read { fd: s.log_read_fd, len: 4096, route: Route::PtyRead(id) },
                ]
                &&& over ==> s.on_stream_write(id, ret) == ops::closes(s.fds())
                &&& over <==> s.after_stream_write(ret) is None
                &&& !over ==> s.after_stream_write(ret) == Some(
                    Session { stream_write_pending: false, ..s },
                )
                &&& s.ptm_fd < 0 && s.log_read_fd < 0 && !over ==> s.on_stream_write(id, ret).len()
                    == 0
            },
        },
{
}

/// The exit of a child marks its session and changes nothing else of it but
/// what waits to be written.
pub proof fn exit_marks_its_session(s: Session, exit: Seq<u8>)
    ensures
        ({
            let after = s.after_exit(exit);
            &&& after.child_exited && after.stream_write_pending
            &&& s.stream_write_pending ==> after.deferred_exit == Some(exit)
            &&& !s.stream_write_pending ==> after.deferred_exit == s.deferred_exit
            &&& after == (Session {
                child_exited: true,
                stream_write_pending: true,
                deferred_exit: after.deferred_exit,
                ..s
            })
        }),
{
}

/// After a write to the PTY more can be written to it; a write that failed
/// closes it, and the session stays to deliver what else comes.
pub proof fn failed_pty_write_closes_the_pty(
    t: SessionTable,
    id: u64,
    ret: i32,
    after: SessionTable,
    acts: Seq<Act>,
)
    requires
        t.open.contains_key(id),
        t.pty_written(id, ret, after, acts),
    ensures
        after.open.contains_key(id),
        after.open[id] == (Session {
            pty_write_pending: false,
            ptm_fd: after.open[id].ptm_fd,
            ..t.open[id]
        }),
        ret >= 0 ==> acts.len() == 0 && after.open[id].ptm_fd == t.open[id].ptm_fd,
        ret < 0 && t.open[id].ptm_fd >= 0 ==> after.open[id].ptm_fd < 0 && acts == seq![
            Act::Close { fd: t.open[id].ptm_fd },
        ],
{
}

/// A completion for a session that is not open changes nothing and calls for
/// nothing.
pub proof fn closed_session_is_left_alone(
    t: SessionTable,
    id: u64,
    ret: i32,
    buffer: Seq<u8>,
    after: SessionTable,
    acts: Seq<Act>,
    frame: Option<(u8, Seq<u8>)>,
)
    requires
        !t.open.contains_key(id),
        t.stream_read(id, ret, buffer, after, acts, frame) || t.output_read(
            id,
            ret,
            buffer,
            after,
            acts,
        ) || t.stream_written(id, ret, after, acts) || t.pty_written(id, ret, after, acts),
    ensures
        after == t,
        acts.len() == 0,
{
}

/// The end of a write to its client is one step of an open session: it goes on,
/// or is closed, as its own state says.
pub proof fn ended_write_is_one_step(
    t: SessionTable,
    id: u64,
    ret: i32,
    after: SessionTable,
    acts: Seq<Act>,
    other: u64,
)
    requires
        t.open.contains_key(id),
        t.stream_written(id, ret, after, acts),
        other != id,
    ensures
        ({
            let s = t.open[id];
            &&& acts == s.on_stream_write(id, ret)
            &&& after.open.contains_key(id) <==> s.after_stream_write(ret) is Some
            &&& s.after_stream_write(ret) matches Some(next) ==> after.open[id] == next
            &&& ret < 0 ==> !after.open.contains_key(id) && acts == ops::closes(s.fds())
            &&& after.open.contains_key(other) == t.open.contains_key(other)
            &&& after.open[other] == t.open[other]
            &&& after.next_id == t.next_id
        }),
{
}

/// A frame reads as its type and its payload.
pub proof fn frame_reads_as_its_parts(ty: u8, payload: Vec<u8>)
    ensures
        frame_view(Some((ty, payload))) == Some((ty, payload@)),
        frame_view(None) is None,
{
}

} // verus!
