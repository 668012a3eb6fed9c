//! Attach sessions: clients on the stream socket.

use vstd::prelude::*;
use vstd::std_specs::hash::*;

use crate::daemon;
use crate::daemon::AttachSession;
use crate::daemon::DaemonState;
use crate::frame;
use crate::log::AsyncPipeWriter;
use crate::protocol;
use crate::protocol::Request;
use crate::protocol::RunArgs;
use crate::sys;
use crate::sys::FdPair;

verus! {

broadcast use vstd::std_specs::hash::group_hash_axioms;

/// A frame from a client, with its payload decoded where it is JSON. A payload
/// that does not decode is absent.
pub enum ClientFrame {
    Request(Option<Request>),
    Data(Vec<u8>),
    StdinEof,
    WinSize(Option<(u16, u16)>),
    Unknown,
}

/// How the payload of a client frame is to be decoded.
#[derive(Clone, Copy, Debug, PartialEq, Eq, Structural)]
pub enum FrameKind {
    Request,
    Data,
    StdinEof,
    WinSize,
    Unknown,
}

/// The kind of client frame that a type byte announces.
pub fn frame_kind(ty: u8) -> (kind: FrameKind)
    ensures
        kind == if ty == 0x00 {
            FrameKind::Request
        } else if ty == 0x10 {
            FrameKind::Data
        } else if ty == 0x11 {
            FrameKind::StdinEof
        } else if ty == 0x20 {
            FrameKind::WinSize
        } else {
            FrameKind::Unknown
        },
{
    if ty == frame::FRAME_REQUEST {
        FrameKind::Request
    } else if ty == frame::FRAME_DATA {
        FrameKind::Data
    } else if ty == frame::FRAME_STDIN_EOF {
        FrameKind::StdinEof
    } else if ty == frame::FRAME_WINSIZE {
        FrameKind::WinSize
    } else {
        FrameKind::Unknown
    }
}

/// What to do about a client frame.
pub enum FrameStep {
    /// Run a container in this session.
    Run(RunArgs),
    /// Attach this session to a running container.
    Attach { pid: i32 },
    /// Write stdin bytes.
    Write { fd: i32, data: Vec<u8> },
    /// Close the container's stdin.
    Close { fd: i32 },
    /// Tell the PTY its new size.
    Resize { fd: i32, rows: u16, cols: u16 },
    /// Read the next frame.
    Nothing,
    /// Close the session.
    EndSession,
}

/// Where a session's stdin goes: the PTY if it has one, else the input
/// descriptor.
pub open spec fn stdin_target(s: AttachSession) -> i32 {
    if s.ptm_fd >= 0 {
        s.ptm_fd
    } else {
        s.input_fd
    }
}

/// Where a session's output comes from: the PTY if it has one, else the log
/// pipe.
pub open spec fn output_source(s: AttachSession) -> i32 {
    if s.ptm_fd >= 0 {
        s.ptm_fd
    } else {
        s.log_read_fd
    }
}

/// The session after its stdin was closed.
pub open spec fn stdin_closed(s: AttachSession) -> AttachSession {
    if s.ptm_fd >= 0 {
        AttachSession { ptm_fd: -1i32, ..s }
    } else if s.input_fd >= 0 {
        AttachSession { input_fd: -1i32, ..s }
    } else {
        s
    }
}

/// Whether `step` is what `frame` calls for in session `sid` of `state`, and
/// `after` the state that it leaves.
pub open spec fn frame_handled(
    state: daemon::State,
    sid: u64,
    frame: ClientFrame,
    after: daemon::State,
    step: FrameStep,
) -> bool {
    &&& !(frame is StdinEof) ==> after == state
    &&& match frame {
        ClientFrame::Request(None) => step is EndSession,
        ClientFrame::Request(Some(request)) => match request {
            Request::Run { .. } => step matches FrameStep::Run(args) && request.asks_to_run(args),
            Request::Attach { pid } => step == (FrameStep::Attach { pid }),
            _ => step is EndSession,
        },
        ClientFrame::Data(data) => {
            let open = state.sessions.contains_key(sid);
            let fd = stdin_target(state.sessions[sid]);
            if data@.len() > 0 && open && fd >= 0 {
                step == (FrameStep::Write { fd, data })
            } else {
                step is Nothing
            }
        },
        ClientFrame::StdinEof => {
            let open = state.sessions.contains_key(sid);
            let s = state.sessions[sid];
            if open && stdin_target(s) >= 0 {
                step == (FrameStep::Close { fd: stdin_target(s) }) && after == state.with_session(
                    sid,
                    stdin_closed(s),
                )
            } else {
                step is Nothing && after == state
            }
        },
        ClientFrame::WinSize(None) => step is Nothing,
        ClientFrame::WinSize(Some((rows, cols))) => {
            let open = state.sessions.contains_key(sid);
            let fd = state.sessions[sid].ptm_fd;
            if open && fd >= 0 {
                step == (FrameStep::Resize { fd, rows, cols })
            } else {
                step is Nothing
            }
        },
        ClientFrame::Unknown => step is EndSession,
    }
}

/// The descriptors that go with a session, in the order they are closed.
pub open spec fn session_fds(s: AttachSession) -> Seq<i32> {
    daemon::if_open(s.stream_fd) + daemon::if_open(s.ptm_fd) + daemon::if_open(s.log_read_fd)
        + daemon::if_open(s.input_fd)
}

impl daemon::State {
    /// The stream of session `sid`, or -1 when it is closed.
    pub open spec fn stream_of(self, sid: u64) -> i32 {
        if self.sessions.contains_key(sid) {
            self.sessions[sid].stream_fd
        } else {
            -1i32
        }
    }

    /// The state and the outcome when a pipe `id`, written through `fd`, is
    /// added to container `pid`.
    pub open spec fn with_pipe(self, pid: i32, fd: i32) -> daemon::State {
        let next = daemon::State { next_pipe_id: (self.next_pipe_id + 1) as u64, ..self };
        if self.containers.contains_key(pid) {
            let c = self.containers[pid];
            next.with_container(
                pid,
                daemon::Container {
                    pipes: c.pipes.push(
                        AsyncPipeWriter { id: self.next_pipe_id, fd, in_flight: false },
                    ),
                    ..c
                },
            )
        } else {
            next
        }
    }
}

impl DaemonState {
    /// Opens a session for a client that just connected. Its id comes back.
    pub fn open_session(&mut self, stream_fd: i32) -> (sid: u64)
        requires
            old(self).wf(),
            old(self)@.next_session_id < u64::MAX,
        ensures
            final(self).wf(),
            sid == old(self)@.next_session_id,
            !old(self)@.sessions.contains_key(sid),
            final(self)@ == (daemon::State {
                sessions: old(self)@.sessions.insert(sid, AttachSession::fresh(stream_fd)),
                next_session_id: (sid + 1) as u64,
                ..old(self)@
            }),
    {
        let sid: u64 = self.next_session_id;
        self.next_session_id = sid + 1;
        self.attach_sessions.insert(
            sid,
            AttachSession {
                stream_fd,
                ptm_fd: -1,
                input_fd: -1,
                log_read_fd: -1,
                container_pid: 0,
                child_exited: false,
                exit_code: None,
            },
        );
        sid
    }

    pub(crate) fn session(&self, sid: u64) -> (s: Option<AttachSession>)
        ensures
            s == if self@.sessions.contains_key(sid) {
                Some(self@.sessions[sid])
            } else {
                None
            },
    {
        match self.attach_sessions.get(&sid) {
            Some(s) => Some(*s),
            None => None,
        }
    }

    pub(crate) fn put_session(&mut self, sid: u64, s: AttachSession)
        requires
            old(self).wf(),
            sid < old(self)@.next_session_id,
        ensures
            final(self).wf(),
            final(self)@ == old(self)@.with_session(sid, s),
    {
        self.attach_sessions.insert(sid, s);
        assert(self@ =~= old(self)@.with_session(sid, s));
        assert forall|k: u64| #[trigger] self@.sessions.contains_key(k) implies k
            < self@.next_session_id by {
            assert(k == sid || old(self)@.sessions.contains_key(k));
        }
    }

    /// The stream of session `sid`, or -1 when the session is closed.
    pub fn stream_fd(&self, sid: u64) -> (fd: i32)
        ensures
            fd == self@.stream_of(sid),
    {
        match self.session(sid) {
            Some(s) => s.stream_fd,
            None => -1,
        }
    }

    /// Closes session `sid`. The descriptors to close come back; for a session
    /// that is not open, nothing does.
    pub fn close_session(&mut self, sid: u64) -> (close: Option<Vec<i32>>)
        requires
            old(self).wf(),
        ensures
            final(self).wf(),
            final(self)@ == old(self)@.without_session(sid),
            match close {
                Some(fds) => old(self)@.sessions.contains_key(sid) && fds@ == session_fds(
                    old(self)@.sessions[sid],
                ),
                None => !old(self)@.sessions.contains_key(sid),
            },
    {
        match self.attach_sessions.remove(&sid) {
            Some(s) => {
                assert(self@ =~= old(self)@.without_session(sid));
                let mut close: Vec<i32> = Vec::new();
                daemon::push_open(&mut close, s.stream_fd);
                daemon::push_open(&mut close, s.ptm_fd);
                daemon::push_open(&mut close, s.log_read_fd);
                daemon::push_open(&mut close, s.input_fd);
                assert(close@ =~= session_fds(s));
                Some(close)
            },
            None => {
                assert(self@ =~= old(self)@.without_session(sid));
                None
            },
        }
    }

    /// The frame to write to session `sid`, and the stream to write it to.
    /// Nothing when the session is closed.
    pub fn attach_frame(&self, sid: u64, ty: u8, payload: &[u8]) -> (out: Option<(i32, Vec<u8>)>)
        ensures
            match out {
                Some((fd, bytes)) => fd == self@.stream_of(sid) && fd >= 0 && bytes@
                    == frame::frame_bytes(ty, payload@),
                None => self@.stream_of(sid) < 0,
            },
    {
        let fd: i32 = self.stream_fd(sid);
        if fd < 0 {
            return None;
        }
        Some((fd, frame::build_frame(ty, payload)))
    }

    /// Decides what one client frame in session `sid` calls for.
    pub fn dispatch_frame(&mut self, sid: u64, frame: ClientFrame) -> (step: FrameStep)
        requires
            old(self).wf(),
        ensures
            final(self).wf(),
            frame_handled(old(self)@, sid, frame, final(self)@, step),
            !(frame is StdinEof) ==> final(self)@ == old(self)@,
            match frame {
                ClientFrame::Request(None) => step is EndSession,
                ClientFrame::Request(Some(request)) => match request {
                    Request::Run { .. } => step matches FrameStep::Run(args)
                        && request.asks_to_run(args),
                    Request::Attach { pid } => step == (FrameStep::Attach { pid }),
                    _ => step is EndSession,
                },
                ClientFrame::Data(data) => {
                    let open = old(self)@.sessions.contains_key(sid);
                    let fd = stdin_target(old(self)@.sessions[sid]);
                    if data@.len() > 0 && open && fd >= 0 {
                        step == (FrameStep::Write { fd, data })
                    } else {
                        step is Nothing
                    }
                },
                ClientFrame::StdinEof => {
                    let open = old(self)@.sessions.contains_key(sid);
                    let s = old(self)@.sessions[sid];
                    if open && stdin_target(s) >= 0 {
                        step == (FrameStep::Close { fd: stdin_target(s) }) && final(self)@ == old(
                            self,
                        )@.with_session(sid, stdin_closed(s))
                    } else {
                        step is Nothing && final(self)@ == old(self)@
                    }
                },
                ClientFrame::WinSize(None) => step is Nothing,
                ClientFrame::WinSize(Some((rows, cols))) => {
                    let open = old(self)@.sessions.contains_key(sid);
                    let fd = old(self)@.sessions[sid].ptm_fd;
                    if open && fd >= 0 {
                        step == (FrameStep::Resize { fd, rows, cols })
                    } else {
                        step is Nothing
                    }
                },
                ClientFrame::Unknown => step is EndSession,
            },
    {
        match frame {
            ClientFrame::Request(None) => FrameStep::EndSession,
            ClientFrame::Request(Some(request)) => {
                if let Request::Attach { pid } = request {
                    return FrameStep::Attach { pid };
                }
                match request.run_args() {
                    Some(args) => FrameStep::Run(args),
                    None => FrameStep::EndSession,
                }
            },
            ClientFrame::Data(data) => {
                if data.len() == 0 {
                    return FrameStep::Nothing;
                }
                match self.session(sid) {
                    Some(s) => {
                        let fd: i32 = if s.ptm_fd >= 0 {
                            s.ptm_fd
                        } else {
                            s.input_fd
                        };
                        if fd >= 0 {
                            FrameStep::Write { fd, data }
                        } else {
                            FrameStep::Nothing
                        }
                    },
                    None => FrameStep::Nothing,
                }
            },
            ClientFrame::StdinEof => {
                match self.session(sid) {
                    Some(s) => {
                        let mut closed: AttachSession = s;
                        let fd: i32 = if s.ptm_fd >= 0 {
                            closed.ptm_fd = -1;
                            s.ptm_fd
                        } else {
                            closed.input_fd = -1;
                            s.input_fd
                        };
                        if fd >= 0 {
                            self.put_session(sid, closed);
                            FrameStep::Close { fd }
                        } else {
                            FrameStep::Nothing
                        }
                    },
                    None => FrameStep::Nothing,
                }
            },
            ClientFrame::WinSize(None) => FrameStep::Nothing,
            ClientFrame::WinSize(Some((rows, cols))) => {
                match self.session(sid) {
                    Some(s) => if s.ptm_fd >= 0 {
                        FrameStep::Resize { fd: s.ptm_fd, rows, cols }
                    } else {
                        FrameStep::Nothing
                    },
                    None => FrameStep::Nothing,
                }
            },
            ClientFrame::Unknown => FrameStep::EndSession,
        }
    }

    /// Registers a follower's pipe with container `pid`. The id of the pipe is
    /// used up even when the container is gone, which is when nothing comes
    /// back.
    pub(crate) fn add_pipe(&mut self, pid: i32, fd: i32) -> (id: Option<u64>)
        requires
            old(self).wf(),
            old(self)@.next_pipe_id < u64::MAX,
        ensures
            final(self).wf(),
            final(self)@ == old(self)@.with_pipe(pid, fd),
            id == if old(self)@.containers.contains_key(pid) {
                Some(old(self)@.next_pipe_id)
            } else {
                None
            },
    {
        let id: u64 = self.next_pipe_id;
        self.next_pipe_id = id + 1;
        match self.take_container(pid) {
            Some(info) => {
                let ghost c = info@;
                let mut info = info;
                info.gateway.pipes.push(AsyncPipeWriter::new(id, fd));
                self.put_container(info);
                assert(self@.containers =~= old(self)@.with_pipe(pid, fd).containers);
                assert(self@ =~= old(self)@.with_pipe(pid, fd));
                Some(id)
            },
            None => None,
        }
    }

    /// Begins attaching to container `pid`: where its stdin is written, or the
    /// message for the client when there is no such container.
    pub fn attach_begin(&self, pid: i32) -> (res: Result<i32, String>)
        requires
            self.wf(),
        ensures
            match res {
                Ok(fd) => self@.containers.contains_key(pid) && fd == if self@.containers[pid].ptm_fd
                    >= 0 {
                    self@.containers[pid].ptm_fd
                } else {
                    self@.containers[pid].stdin_fd
                },
                Err(msg) => !self@.containers.contains_key(pid) && msg@
                    == protocol::not_found_text(pid),
            },
    {
        match self.container(pid) {
            Some(info) => Ok(
                if info.ptm_fd >= 0 {
                    info.ptm_fd
                } else {
                    info.stdin_fd
                },
            ),
            None => Err(protocol::not_found(pid)),
        }
    }

    /// Attaches session `sid` to container `pid` through a fresh pipe: the
    /// container's output goes into it, the session reads from it. When the
    /// container is gone, the pipe's ends come back, to be closed.
    pub fn attach_finish(&mut self, sid: u64, pid: i32, input_fd: i32, pipe: FdPair) -> (res:
        Result<u64, Vec<i32>>)
        requires
            old(self).wf(),
            old(self)@.next_pipe_id < u64::MAX,
        ensures
            final(self).wf(),
            match res {
                Ok(id) => {
                    let piped = old(self)@.with_pipe(pid, pipe.write);
                    &&& old(self)@.containers.contains_key(pid)
                    &&& id == old(self)@.next_pipe_id
                    &&& final(self)@ == if old(self)@.sessions.contains_key(sid) {
                        piped.with_session(
                            sid,
                            AttachSession {
                                log_read_fd: pipe.read,
                                input_fd,
                                container_pid: pid,
                                ..old(self)@.sessions[sid]
                            },
                        )
                    } else {
                        piped
                    }
                },
                Err(close) => {
                    &&& !old(self)@.containers.contains_key(pid)
                    &&& close@ == seq![pipe.read, pipe.write]
                    &&& final(self)@ == old(self)@.with_pipe(pid, pipe.write)
                },
            },
    {
        match self.add_pipe(pid, pipe.write) {
            Some(id) => {
                if let Some(s) = self.session(sid) {
                    let mut wired: AttachSession = s;
                    wired.log_read_fd = pipe.read;
                    wired.input_fd = input_fd;
                    wired.container_pid = pid;
                    self.put_session(sid, wired);
                }
                Ok(id)
            },
            None => {
                let mut close: Vec<i32> = Vec::new();
                close.push(pipe.read);
                close.push(pipe.write);
                assert(close@ =~= seq![pipe.read, pipe.write]);
                Err(close)
            },
        }
    }
}

/// Progress of a session's output.
#[derive(Clone, Copy, Debug, PartialEq, Eq, Structural)]
pub enum OutputStage {
    /// Output is being read and sent to the client.
    Draining,
    /// All output was sent; the exit code is not known yet.
    Waiting,
    /// The exit code was sent, or nobody is left to send it to.
    Done,
}

/// What happened to a session's output.
pub enum OutputEvent {
    /// A read returned these bytes; none at all means the end.
    Read(Vec<u8>),
    ReadFailed,
    /// The data frame was written, or could not be.
    FrameSent(bool),
    /// The container exited, or the session was closed.
    ExitNotified,
}

/// What to do next for a session's output.
pub enum OutputAction {
    ReadMore,
    SendData { fd: i32, frame: Vec<u8> },
    WaitExit,
    /// Send the exit code, then close the session.
    SendExit { fd: i32, exit_code: i32 },
    Stop,
}

/// The relay of one session's output to its client.
pub struct SessionOutput {
    pub session_id: u64,
    pub fd: i32,
    pub stage: OutputStage,
}

impl SessionOutput {
    /// Starts the relay of session `sid`, if it is open and has output.
    pub fn start(state: &DaemonState, sid: u64) -> (out: Option<Self>)
        ensures
            match out {
                Some(o) => state@.sessions.contains_key(sid) && o.session_id == sid && o.fd
                    == output_source(state@.sessions[sid]) && o.fd >= 0 && o.stage
                    == OutputStage::Draining,
                None => !state@.sessions.contains_key(sid) || output_source(state@.sessions[sid])
                    < 0,
            },
    {
        match state.session(sid) {
            Some(s) => {
                let fd: i32 = if s.ptm_fd >= 0 {
                    s.ptm_fd
                } else {
                    s.log_read_fd
                };
                if fd < 0 {
                    None
                } else {
                    Some(SessionOutput { session_id: sid, fd, stage: OutputStage::Draining })
                }
            },
            None => None,
        }
    }

    /// Whether `action` ends the relay: the exit code goes out if the session
    /// is still open, and is 0 when it is unknown.
    pub open spec fn finishes(state: daemon::State, sid: u64, action: OutputAction) -> bool {
        let fd = state.stream_of(sid);
        if fd < 0 {
            action is Stop
        } else {
            action == (OutputAction::SendExit {
                fd,
                exit_code: match state.sessions[sid].exit_code {
                    Some(code) => code,
                    None => 0i32,
                },
            })
        }
    }

    /// Whether session `sid` knows its exit code.
    pub open spec fn exit_known(state: daemon::State, sid: u64) -> bool {
        state.sessions[sid].child_exited && state.sessions[sid].exit_code is Some
    }

    fn finish(&mut self, state: &DaemonState) -> (action: OutputAction)
        ensures
            final(self).session_id == old(self).session_id,
            final(self).fd == old(self).fd,
            final(self).stage == OutputStage::Done,
            SessionOutput::finishes(state@, old(self).session_id, action),
    {
        self.stage = OutputStage::Done;
        match state.session(self.session_id) {
            Some(s) => {
                if s.stream_fd < 0 {
                    OutputAction::Stop
                } else {
                    OutputAction::SendExit {
                        fd: s.stream_fd,
                        exit_code: match s.exit_code {
                            Some(code) => code,
                            None => 0,
                        },
                    }
                }
            },
            None => OutputAction::Stop,
        }
    }

    /// Takes one event. Output is relayed until its end; then the exit code
    /// follows, once it is known.
    pub fn step(&mut self, state: &DaemonState, event: OutputEvent) -> (action: OutputAction)
        ensures
            final(self).session_id == old(self).session_id,
            final(self).fd == old(self).fd,
            ({
                let sid = old(self).session_id;
                let relayed = match event {
                    OutputEvent::Read(bytes) => bytes@.len() > 0 && state@.stream_of(sid) >= 0,
                    OutputEvent::FrameSent(ok) => ok,
                    OutputEvent::ExitNotified => true,
                    OutputEvent::ReadFailed => false,
                };
                match old(self).stage {
                    OutputStage::Draining => if relayed {
                        &&& final(self).stage == OutputStage::Draining
                        &&& match event {
                            OutputEvent::Read(bytes) => action matches OutputAction::SendData {
                                fd,
                                frame,
                            } && fd == state@.stream_of(sid) && frame@ == frame::frame_bytes(
                                0x10u8,
                                bytes@,
                            ),
                            _ => action is ReadMore,
                        }
                    } else if !state@.sessions.contains_key(sid) {
                        final(self).stage == OutputStage::Done && action is Stop
                    } else if SessionOutput::exit_known(state@, sid) {
                        final(self).stage == OutputStage::Done && SessionOutput::finishes(
                            state@,
                            sid,
                            action,
                        )
                    } else {
                        final(self).stage == OutputStage::Waiting && action is WaitExit
                    },
                    OutputStage::Waiting => if event is ExitNotified {
                        final(self).stage == OutputStage::Done && SessionOutput::finishes(
                            state@,
                            sid,
                            action,
                        )
                    } else {
                        final(self).stage == OutputStage::Waiting && action is WaitExit
                    },
                    OutputStage::Done => final(self).stage == OutputStage::Done && action is Stop,
                }
            }),
    {
        match self.stage {
            OutputStage::Draining => {
                match event {
                    OutputEvent::Read(bytes) => {
                        let fd: i32 = state.stream_fd(self.session_id);
                        if bytes.len() > 0 && fd >= 0 {
                            return OutputAction::SendData {
                                fd,
                                frame: frame::build_frame(frame::FRAME_DATA, bytes.as_slice()),
                            };
                        }
                    },
                    OutputEvent::FrameSent(ok) => {
                        if ok {
                            return OutputAction::ReadMore;
                        }
                    },
                    OutputEvent::ExitNotified => {
                        return OutputAction::ReadMore;
                    },
                    OutputEvent::ReadFailed => {},
                }
                match state.session(self.session_id) {
                    Some(s) => {
                        if s.child_exited && s.exit_code.is_some() {
                            self.finish(state)
                        } else {
                            self.stage = OutputStage::Waiting;
                            OutputAction::WaitExit
                        }
                    },
                    None => {
                        self.stage = OutputStage::Done;
                        OutputAction::Stop
                    },
                }
            },
            OutputStage::Waiting => {
                match event {
                    OutputEvent::ExitNotified => self.finish(state),
                    _ => OutputAction::WaitExit,
                }
            },
            OutputStage::Done => OutputAction::Stop,
        }
    }
}

/// The exit code reaches the client: once a session was told of the exit, its
/// relay knows the code and can only end by sending that code, whether or not
/// the container itself is gone by then.
pub proof fn exit_code_reaches_client(
    s: daemon::State,
    sid: u64,
    pid: i32,
    status: i32,
    action: OutputAction,
)
    requires
        s.sessions.contains_key(sid),
        s.sessions[sid].stream_fd >= 0,
    ensures
        SessionOutput::exit_known(s.told(sid, status), sid),
        SessionOutput::exit_known(s.told(sid, status).buried(pid), sid),
        SessionOutput::finishes(s.told(sid, status), sid, action) <==> action == (
        OutputAction::SendExit {
            fd: s.sessions[sid].stream_fd,
            exit_code: sys::code_of_status(status) as i32,
        }),
        SessionOutput::finishes(s.told(sid, status).buried(pid), sid, action)
            == SessionOutput::finishes(s.told(sid, status), sid, action),
{
}

/// Closing a session and opening the next one never reuse an id.
pub proof fn session_ids_are_not_reused(s: daemon::State, closed: u64, stream_fd: i32)
    requires
        s.ids_fresh(),
        s.sessions.contains_key(closed),
    ensures
        closed != s.without_session(closed).next_session_id,
{
}

/// After the client closed stdin once, a second end-of-input finds the PTY
/// closed; only a separate input descriptor can still be left to close.
pub proof fn stdin_closes_at_most_twice(s: AttachSession)
    ensures
        stdin_target(stdin_closed(stdin_closed(s))) < 0,
{
}

/// Stdin bytes of a client go to the PTY of its container exactly when the
/// session has one, and to the input descriptor exactly when it has none;
/// without either, and without bytes, nothing is written. Nothing changes in
/// the state.
pub proof fn input_is_written_once(
    state: daemon::State,
    sid: u64,
    data: Vec<u8>,
    after: daemon::State,
    step: FrameStep,
)
    requires
        frame_handled(state, sid, ClientFrame::Data(data), after, step),
    ensures
        ({
            let s = state.sessions[sid];
            let open = state.sessions.contains_key(sid) && data@.len() > 0;
            &&& step is Write <==> open && (s.ptm_fd >= 0 || s.input_fd >= 0)
            &&& open && s.ptm_fd >= 0 ==> step == (FrameStep::Write { fd: s.ptm_fd, data })
            &&& open && s.ptm_fd < 0 && s.input_fd >= 0 ==> step == (FrameStep::Write {
                fd: s.input_fd,
                data,
            })
            &&& !(step is Write) ==> step is Nothing
            &&& after == state
        }),
{
}

/// The end of a client's input closes where its bytes went: the PTY if the
/// session has one, else the input descriptor. That descriptor is then
/// forgotten, and nothing else of any session changes.
pub proof fn end_of_input_closes_its_target(
    state: daemon::State,
    sid: u64,
    after: daemon::State,
    step: FrameStep,
    other: u64,
)
    requires
        frame_handled(state, sid, ClientFrame::StdinEof, after, step),
        state.sessions.contains_key(sid),
        other != sid,
    ensures
        ({
            let s = state.sessions[sid];
            let t = after.sessions[sid];
            &&& s.ptm_fd >= 0 ==> step == (FrameStep::Close { fd: s.ptm_fd }) && t.ptm_fd < 0
                && t.input_fd == s.input_fd
            &&& s.ptm_fd < 0 && s.input_fd >= 0 ==> step == (FrameStep::Close { fd: s.input_fd })
                && t.input_fd < 0 && t.ptm_fd == s.ptm_fd
            &&& s.ptm_fd < 0 && s.input_fd < 0 ==> step is Nothing && t == s
            &&& t.stream_fd == s.stream_fd && t.log_read_fd == s.log_read_fd && t.container_pid
                == s.container_pid && t.child_exited == s.child_exited && t.exit_code
                == s.exit_code
            &&& after.sessions.contains_key(sid)
            &&& after.sessions.contains_key(other) == state.sessions.contains_key(other)
            &&& after.sessions[other] == state.sessions[other]
            &&& after.containers == state.containers
        }),
{
}

/// A window size goes to the session's PTY, rows before columns, and nowhere
/// when there is none. A frame that is no request, no input and no size ends
/// the session, and so does a request that only the datagram socket serves.
pub proof fn other_frames_are_dispatched(
    state: daemon::State,
    sid: u64,
    frame: ClientFrame,
    after: daemon::State,
    step: FrameStep,
)
    requires
        frame_handled(state, sid, frame, after, step),
    ensures
        frame matches ClientFrame::WinSize(Some((rows, cols))) ==> if state.sessions.contains_key(
            sid,
        ) && state.sessions[sid].ptm_fd >= 0 {
            step == (FrameStep::Resize { fd: state.sessions[sid].ptm_fd, rows, cols })
        } else {
            step is Nothing
        },
        step is EndSession <==> match frame {
            ClientFrame::Request(Some(request)) => request is List || request is Kill
                || request is Logs,
            ClientFrame::Request(None) => true,
            ClientFrame::Unknown => true,
            _ => false,
        },
        step is Run <==> (frame matches ClientFrame::Request(Some(request)) && request is Run),
        step matches FrameStep::Run(args) ==> (frame matches ClientFrame::Request(Some(request))
            && request.asks_to_run(args)),
        frame matches ClientFrame::Request(Some(Request::Attach { pid })) ==> step == (
        FrameStep::Attach { pid }),
{
}

/// A session's output is read from its PTY if it has one, else from the log
/// pipe.
pub proof fn output_comes_from_one_place(s: AttachSession)
    ensures
        s.ptm_fd >= 0 ==> output_source(s) == s.ptm_fd,
        s.ptm_fd < 0 ==> output_source(s) == s.log_read_fd,
        s.ptm_fd >= 0 ==> stdin_target(s) == s.ptm_fd,
        s.ptm_fd < 0 ==> stdin_target(s) == s.input_fd,
{
}

/// A closed session leaves no descriptor open, and closes no other.
pub proof fn closed_session_leaks_nothing(s: AttachSession, fd: i32)
    ensures
        session_fds(s).contains(fd) <==> fd >= 0 && (fd == s.stream_fd || fd == s.ptm_fd || fd
            == s.log_read_fd || fd == s.input_fd),
        session_fds(s).len() == (if s.stream_fd >= 0 {
            1int
        } else {
            0
        }) + (if s.ptm_fd >= 0 {
            1int
        } else {
            0
        }) + (if s.log_read_fd >= 0 {
            1int
        } else {
            0
        }) + (if s.input_fd >= 0 {
            1int
        } else {
            0
        }),
{
    let a = daemon::if_open(s.stream_fd);
    let b = daemon::if_open(s.ptm_fd);
    let c = daemon::if_open(s.log_read_fd);
    if fd >= 0 {
        if fd == s.stream_fd {
            assert(session_fds(s)[0] == fd);
        } else if fd == s.ptm_fd {
            assert(session_fds(s)[a.len() as int] == fd);
        } else if fd == s.log_read_fd {
            assert(session_fds(s)[(a + b).len() as int] == fd);
        } else if fd == s.input_fd {
            assert(session_fds(s)[(a + b + c).len() as int] == fd);
        }
    }
}

/// A new follower is added behind those a container has, ready to be written,
/// under an id that is not used again. Other containers keep theirs.
pub proof fn follower_joins_the_others(s: daemon::State, pid: i32, fd: i32, other: i32)
    requires
        s.next_pipe_id < u64::MAX,
        other != pid,
    ensures
        ({
            let after = s.with_pipe(pid, fd);
            &&& after.next_pipe_id == s.next_pipe_id + 1
            &&& after.containers.dom() == s.containers.dom()
            &&& s.containers.contains_key(pid) ==> {
                let old_pipes = s.containers[pid].pipes;
                let new_pipes = after.containers[pid].pipes;
                &&& new_pipes.len() == old_pipes.len() + 1
                &&& new_pipes.drop_last() == old_pipes
                &&& new_pipes.last().id == s.next_pipe_id
                &&& new_pipes.last().fd == fd
                &&& !new_pipes.last().in_flight
                &&& after.containers[pid] == (daemon::Container {
                    pipes: new_pipes,
                    ..s.containers[pid]
                })
            }
            &&& after.containers[other] == s.containers[other]
            &&& after.sessions == s.sessions && after.outputs == s.outputs && after.graveyard
                == s.graveyard
        }),
{
    let after = s.with_pipe(pid, fd);
    assert(after.containers.dom() =~= s.containers.dom());
    if s.containers.contains_key(pid) {
        assert(after.containers[pid].pipes.drop_last() =~= s.containers[pid].pipes);
    }
}

/// A client learns the exit code of its container: told of a process that
/// exited with `n`, its session ends with an exit frame that carries `n`; told
/// of one that signal `n` ended, with 128 plus `n`.
pub proof fn client_learns_how_it_ended(
    s: daemon::State,
    sid: u64,
    status: i32,
    n: i32,
    action: OutputAction,
)
    requires
        s.sessions.contains_key(sid),
        s.sessions[sid].stream_fd >= 0,
        SessionOutput::finishes(s.told(sid, status), sid, action),
    ensures
        0 <= n <= 255 && status == n << 8 ==> action == (OutputAction::SendExit {
            fd: s.sessions[sid].stream_fd,
            exit_code: n,
        }),
        1 <= n <= 126 && status & 0x7f == n ==> action == (OutputAction::SendExit {
            fd: s.sessions[sid].stream_fd,
            exit_code: (128 + n) as i32,
        }),
{
    if 0 <= n <= 255 {
        sys::own_exit_code_is_reported(n);
    }
    if 1 <= n <= 126 && status & 0x7f == n {
        sys::fatal_signal_is_reported(status, n as int);
    }
}

/// A relay that ends says so to its client: with the code that the session
/// knows, or 0 when it knows none. A client that is gone is told nothing.
pub proof fn relay_ends_with_the_known_code(state: daemon::State, sid: u64, action: OutputAction)
    requires
        SessionOutput::finishes(state, sid, action),
    ensures
        action is SendExit <==> state.sessions.contains_key(sid) && state.sessions[sid].stream_fd
            >= 0,
        !(action is SendExit) ==> action is Stop,
        action matches OutputAction::SendExit { fd, exit_code } ==> {
            &&& fd == state.sessions[sid].stream_fd
            &&& match state.sessions[sid].exit_code {
                Some(code) => exit_code == code,
                None => exit_code == 0,
            }
        },
{
}

/// A session that is open is written to through its stream; one that is closed
/// has none.
pub proof fn stream_belongs_to_its_session(s: daemon::State, sid: u64)
    ensures
        s.sessions.contains_key(sid) ==> s.stream_of(sid) == s.sessions[sid].stream_fd,
        !s.sessions.contains_key(sid) ==> s.stream_of(sid) < 0,
{
}

/// The exit code is known once the child is known to have exited and its code
/// was recorded, and not before.
pub proof fn exit_is_known_once_recorded(s: daemon::State, sid: u64)
    ensures
        SessionOutput::exit_known(s, sid) <==> s.sessions[sid].child_exited
            && s.sessions[sid].exit_code is Some,
        s.sessions[sid] == AttachSession::fresh(s.sessions[sid].stream_fd)
            ==> !SessionOutput::exit_known(s, sid),
{
}

} // verus!
