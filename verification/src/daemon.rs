//! The daemon's state and what each event does to it.
//!
//! Every operation here is a decision: it updates the state and says which
//! descriptors to close, which overlay to clean up, what to write and what to
//! answer. Performing that is left to the caller.

pub mod requests;
pub mod run;
pub mod sessions;

use std::collections::HashMap;

use vstd::prelude::*;
use vstd::std_specs::hash::*;

use crate::lines;
use crate::log;
use crate::log::AsyncPipeWriter;
use crate::log::LogCache;
use crate::log::LogGateway;
use crate::log::LOG_CAPACITY;
use crate::sys;

verus! {

broadcast use vstd::std_specs::hash::group_hash_axioms;

/// What the daemon keeps of one container.
pub struct ContainerInfo {
    pub pid: i32,
    pub command: String,
    pub overlay_dir: Option<String>,
    pub save: bool,
    pub start_time: u64,
    pub gateway: LogGateway,
    /// Write end of the stdin pipe, or -1.
    pub stdin_fd: i32,
    /// The PTY master, or -1.
    pub ptm_fd: i32,
    /// Output drains still running. The container stays until the last one is
    /// done, so that all its output reaches the followers.
    pub drains_pending: u32,
}

/// A container as the contracts speak of it.
#[verifier::ext_equal]
pub struct Container {
    pub command: Seq<char>,
    pub overlay_dir: Option<Seq<char>>,
    pub save: bool,
    pub start_time: u64,
    pub log: Seq<u8>,
    pub pipes: Seq<AsyncPipeWriter>,
    pub stdin_fd: i32,
    pub ptm_fd: i32,
    pub drains_pending: u32,
}

/// The text of an optional string.
pub open spec fn text_of(s: Option<String>) -> Option<Seq<char>> {
    match s {
        Some(t) => Some(t@),
        None => None,
    }
}

impl View for ContainerInfo {
    type V = Container;

    open spec fn view(&self) -> Container {
        Container {
            command: self.command@,
            overlay_dir: text_of(self.overlay_dir),
            save: self.save,
            start_time: self.start_time,
            log: self.gateway.cache@,
            pipes: self.gateway.pipes@,
            stdin_fd: self.stdin_fd,
            ptm_fd: self.ptm_fd,
            drains_pending: self.drains_pending,
        }
    }
}

impl ContainerInfo {
    pub open spec fn wf(&self) -> bool {
        &&& self.gateway.wf()
        &&& self.gateway.cache.capacity() == LOG_CAPACITY
    }
}

/// A client attached over the stream socket.
#[derive(Clone, Copy, Debug, PartialEq, Eq, Structural)]
pub struct AttachSession {
    pub stream_fd: i32,
    /// PTY master of a container that was started here, or -1.
    pub ptm_fd: i32,
    /// Where stdin goes when there is no PTY, or -1.
    pub input_fd: i32,
    /// Where output comes from when there is no PTY, or -1.
    pub log_read_fd: i32,
    pub container_pid: i32,
    pub child_exited: bool,
    pub exit_code: Option<i32>,
}

impl AttachSession {
    /// The session of a client that has asked for nothing yet.
    pub open spec fn fresh(stream_fd: i32) -> AttachSession {
        AttachSession {
            stream_fd,
            ptm_fd: -1i32,
            input_fd: -1i32,
            log_read_fd: -1i32,
            container_pid: 0,
            child_exited: false,
            exit_code: None,
        }
    }
}

/// The daemon's state as the contracts speak of it.
#[verifier::ext_equal]
pub struct State {
    pub containers: Map<i32, Container>,
    pub outputs: Map<i32, i32>,
    pub graveyard: Map<i32, Seq<u8>>,
    pub sessions: Map<u64, AttachSession>,
    pub next_pipe_id: u64,
    pub next_session_id: u64,
}

/// No two of these pipes share an id.
pub open spec fn distinct_ids(pipes: Seq<AsyncPipeWriter>) -> bool {
    forall|i: int, j: int|
        0 <= i < j < pipes.len() ==> (#[trigger] pipes[i]).id != (#[trigger] pipes[j]).id
}

/// All ids of these pipes were handed out before `next`.
pub open spec fn ids_below(pipes: Seq<AsyncPipeWriter>, next: u64) -> bool {
    forall|i: int| 0 <= i < pipes.len() ==> (#[trigger] pipes[i]).id < next
}

impl State {
    /// Ids are handed out once: what is in use lies below the next one, and a
    /// container's pipes differ in id.
    pub open spec fn ids_fresh(self) -> bool {
        &&& forall|sid: u64| #[trigger]
            self.sessions.contains_key(sid) ==> sid < self.next_session_id
        &&& forall|pid: i32| #[trigger]
            self.containers.contains_key(pid) ==> distinct_ids(self.containers[pid].pipes)
                && ids_below(self.containers[pid].pipes, self.next_pipe_id)
    }

    /// The log of `pid`: the running container's, or else what a container of
    /// that pid left behind.
    pub open spec fn stored_log(self, pid: i32) -> Option<Seq<u8>> {
        if self.containers.contains_key(pid) {
            Some(self.containers[pid].log)
        } else if self.graveyard.contains_key(pid) {
            Some(self.graveyard[pid])
        } else {
            None
        }
    }

    /// The state once container `pid` is gone and only its log is kept.
    pub open spec fn buried(self, pid: i32) -> State {
        State {
            containers: self.containers.remove(pid),
            graveyard: self.graveyard.insert(pid, self.containers[pid].log),
            ..self
        }
    }

    /// The state once one drain of container `pid` ended: the container goes
    /// with its last drain.
    pub open spec fn drain_done(self, pid: i32) -> State {
        if !self.containers.contains_key(pid) {
            self
        } else if self.containers[pid].drains_pending > 1 {
            let c = self.containers[pid];
            self.with_container(
                pid,
                Container { drains_pending: (c.drains_pending - 1) as u32, ..c },
            )
        } else {
            self.buried(pid)
        }
    }

    /// The state once `n` drains of container `pid` ended.
    pub open spec fn drains_done(self, pid: i32, n: nat) -> State
        decreases n,
    {
        if n == 0 {
            self
        } else {
            self.drains_done(pid, (n - 1) as nat).drain_done(pid)
        }
    }

    pub open spec fn with_container(self, pid: i32, c: Container) -> State {
        State { containers: self.containers.insert(pid, c), ..self }
    }

    pub open spec fn with_session(self, sid: u64, s: AttachSession) -> State {
        State { sessions: self.sessions.insert(sid, s), ..self }
    }

    pub open spec fn without_session(self, sid: u64) -> State {
        State { sessions: self.sessions.remove(sid), ..self }
    }

    /// The state once session `sid` was told that its container exited with
    /// wait status `status`.
    pub open spec fn told(self, sid: u64, status: i32) -> State {
        self.with_session(
            sid,
            AttachSession {
                child_exited: true,
                exit_code: Some(sys::code_of_status(status) as i32),
                ..self.sessions[sid]
            },
        )
    }

    /// Whether some session watches container `pid`.
    pub open spec fn watched(self, pid: i32) -> bool {
        exists|sid: u64| #[trigger]
            self.sessions.contains_key(sid) && self.sessions[sid].container_pid == pid
    }
}

/// `fd` when it is open, nothing when it is not.
pub open spec fn if_open(fd: i32) -> Seq<i32> {
    if fd >= 0 {
        seq![fd]
    } else {
        Seq::empty()
    }
}

fn push_open(close: &mut Vec<i32>, fd: i32)
    ensures
        final(close)@ == old(close)@ + if_open(fd),
{
    if fd >= 0 {
        close.push(fd);
    }
    assert(close@ =~= old(close)@ + if_open(fd));
}

/// The descriptors that go with a container: its PTY master, its stdin pipe
/// and its followers' pipes.
pub open spec fn container_fds(c: Container) -> Seq<i32> {
    if_open(c.ptm_fd) + if_open(c.stdin_fd) + log::open_fds(c.pipes)
}

/// The overlay to remove with a container: its own, unless it is to be saved.
pub open spec fn overlay_to_clean(c: Container) -> Option<Seq<char>> {
    if c.save {
        None
    } else {
        c.overlay_dir
    }
}

/// What to do after a container left the state.
pub struct Removed {
    /// Descriptors to close, in order.
    pub close: Vec<i32>,
    /// The overlay directory to clean up.
    pub cleanup: Option<String>,
}

impl Removed {
    /// Nothing to do.
    pub open spec fn nothing(&self) -> bool {
        self.close@ == Seq::<i32>::empty() && self.cleanup is None
    }

    /// What goes with container `c`.
    pub open spec fn of(&self, c: Container) -> bool {
        self.close@ == container_fds(c) && text_of(self.cleanup) == overlay_to_clean(c)
    }
}

/// What to do after a child was reaped.
pub struct Reaped {
    /// The session to tell about the exit.
    pub notify: Option<u64>,
    pub removed: Removed,
}

/// The daemon's state.
pub struct DaemonState {
    containers: HashMap<i32, ContainerInfo>,
    outputs: HashMap<i32, i32>,
    log_graveyard: HashMap<i32, LogCache>,
    next_pipe_id: u64,
    attach_sessions: HashMap<u64, AttachSession>,
    next_session_id: u64,
}

impl View for DaemonState {
    type V = State;

    closed spec fn view(&self) -> State {
        State {
            containers: self.containers@.map_values(|c: ContainerInfo| c@),
            outputs: self.outputs@,
            graveyard: self.log_graveyard@.map_values(|c: LogCache| c@),
            sessions: self.attach_sessions@,
            next_pipe_id: self.next_pipe_id,
            next_session_id: self.next_session_id,
        }
    }
}

impl DaemonState {
    spec fn parts_ok(&self) -> bool {
        &&& forall|pid: i32| #[trigger]
            self.containers@.contains_key(pid) ==> self.containers@[pid].wf()
                && self.containers@[pid].pid == pid
        &&& forall|pid: i32| #[trigger]
            self.log_graveyard@.contains_key(pid) ==> self.log_graveyard@[pid].wf()
                && self.log_graveyard@[pid].capacity() == LOG_CAPACITY
    }

    /// Every log is well formed, and ids in use were handed out before.
    pub closed spec fn wf(&self) -> bool {
        self.parts_ok() && self@.ids_fresh()
    }

    /// What `wf` says of the state that the contracts speak of.
    pub proof fn wf_means(&self)
        requires
            self.wf(),
        ensures
            self@.ids_fresh(),
            forall|pid: i32| #[trigger]
                self@.containers.contains_key(pid) ==> self@.containers[pid].log.len()
                    <= LOG_CAPACITY && lines::tail_of(self@.containers[pid].log) == Seq::<
                    u8,
                >::empty(),
            forall|pid: i32| #[trigger]
                self@.graveyard.contains_key(pid) ==> self@.graveyard[pid].len() <= LOG_CAPACITY
                    && lines::tail_of(self@.graveyard[pid]) == Seq::<u8>::empty(),
    {
        assert forall|pid: i32| #[trigger] self@.containers.contains_key(pid) implies self@.containers[pid].log.len()
            <= LOG_CAPACITY && lines::tail_of(self@.containers[pid].log) == Seq::<u8>::empty() by {
            assert(self.containers@.contains_key(pid));
            self.containers@[pid].gateway.cache.wf_means();
        }
        assert forall|pid: i32| #[trigger] self@.graveyard.contains_key(pid) implies self@.graveyard[pid].len()
            <= LOG_CAPACITY && lines::tail_of(self@.graveyard[pid]) == Seq::<u8>::empty() by {
            assert(self.log_graveyard@.contains_key(pid));
            self.log_graveyard@[pid].wf_means();
        }
    }

    pub fn new() -> (state: Self)
        ensures
            state.wf(),
            state@ == (State {
                containers: Map::empty(),
                outputs: Map::empty(),
                graveyard: Map::empty(),
                sessions: Map::empty(),
                next_pipe_id: 0,
                next_session_id: 0,
            }),
    {
        let state = DaemonState {
            containers: HashMap::new(),
            outputs: HashMap::new(),
            log_graveyard: HashMap::new(),
            next_pipe_id: 0,
            attach_sessions: HashMap::new(),
            next_session_id: 0,
        };
        assert(state@.containers =~= Map::<i32, Container>::empty());
        assert(state@.graveyard =~= Map::<i32, Seq<u8>>::empty());
        state
    }

    /// Whether there are ids left for one more pipe and one more session.
    pub fn has_free_ids(&self) -> (free: bool)
        ensures
            free == (self@.next_pipe_id < u64::MAX && self@.next_session_id < u64::MAX),
    {
        self.next_pipe_id < u64::MAX && self.next_session_id < u64::MAX
    }

    fn container(&self, pid: i32) -> (info: Option<&ContainerInfo>)
        requires
            self.wf(),
        ensures
            match info {
                Some(i) => self@.containers.contains_key(pid) && i@ == self@.containers[pid]
                    && i.wf() && i.pid == pid,
                None => !self@.containers.contains_key(pid),
            },
    {
        self.containers.get(&pid)
    }

    fn take_container(&mut self, pid: i32) -> (info: Option<ContainerInfo>)
        requires
            old(self).parts_ok(),
        ensures
            final(self).parts_ok(),
            match info {
                Some(i) => {
                    &&& old(self)@.containers.contains_key(pid)
                    &&& i@ == old(self)@.containers[pid]
                    &&& i.wf()
                    &&& i.pid == pid
                    &&& final(self)@ == (State {
                        containers: old(self)@.containers.remove(pid),
                        ..old(self)@
                    })
                },
                None => !old(self)@.containers.contains_key(pid) && *final(self) == *old(self),
            },
    {
        if !self.containers.contains_key(&pid) {
            return None;
        }
        let info: Option<ContainerInfo> = self.containers.remove(&pid);
        assert(self@.containers =~= old(self)@.containers.remove(pid));
        info
    }

    fn put_container(&mut self, info: ContainerInfo)
        requires
            old(self).parts_ok(),
            info.wf(),
        ensures
            final(self).parts_ok(),
            final(self)@ == old(self)@.with_container(info.pid, info@),
    {
        let pid: i32 = info.pid;
        let ghost c = info@;
        self.containers.insert(pid, info);
        assert(self@.containers =~= old(self)@.containers.insert(pid, c));
    }

    /// Takes container `pid` out of the state, keeping only its log.
    fn bury(&mut self, pid: i32) -> (removed: Removed)
        requires
            old(self).wf(),
            old(self)@.containers.contains_key(pid),
        ensures
            final(self).wf(),
            final(self)@ == old(self)@.buried(pid),
            removed.of(old(self)@.containers[pid]),
    {
        let ghost before = self@;
        let ghost c = self@.containers[pid];
        let mut close: Vec<i32> = Vec::new();
        let mut cleanup: Option<String> = None;
        if let Some(info) = self.take_container(pid) {
            push_open(&mut close, info.ptm_fd);
            push_open(&mut close, info.stdin_fd);
            let mut gateway: LogGateway = info.gateway;
            let mut pipes: Vec<i32> = gateway.close_all_pipes();
            close.append(&mut pipes);
            assert(close@ =~= container_fds(c));
            if !info.save {
                cleanup = info.overlay_dir;
            }
            self.log_graveyard.insert(pid, gateway.cache);
            assert(self@.graveyard =~= before.graveyard.insert(pid, c.log));
            assert(self@ =~= before.buried(pid));
        }
        Removed { close, cleanup }
    }

    /// A session that watches container `pid`, if one does.
    fn session_of(&self, pid: i32) -> (sid: Option<u64>)
        ensures
            match sid {
                Some(s) => self@.sessions.contains_key(s) && self@.sessions[s].container_pid
                    == pid,
                None => !self@.watched(pid),
            },
    {
        let ghost sessions = self.attach_sessions@;
        for entry in it: self.attach_sessions.iter()
            invariant
                sessions == self.attach_sessions@,
                it.seq().len() == sessions.dom().len(),
                forall|k: int|
                    0 <= k < it.seq().len() ==> sessions.contains_key(*(#[trigger] it.seq()[k]).0)
                        && sessions[*it.seq()[k].0] == *it.seq()[k].1,
                forall|sid: u64| #[trigger]
                    sessions.contains_key(sid) ==> it.seq().contains((&sid, &sessions[sid])),
                forall|k: int|
                    0 <= k < it.index() ==> (#[trigger] it.seq()[k]).1.container_pid != pid,
        {
            if entry.1.container_pid == pid {
                return Some(*entry.0);
            }
        }
        None
    }

    /// Handles the exit of child `pid` with wait status `status`.
    ///
    /// A session that watches the container learns the exit code. The
    /// container itself goes now when nothing drains its output any more, and
    /// otherwise when the last drain ends.
    pub fn reap_child(&mut self, pid: i32, status: i32) -> (out: Reaped)
        requires
            old(self).wf(),
        ensures
            final(self).wf(),
            ({
                let told = match out.notify {
                    Some(sid) => old(self)@.told(sid, status),
                    None => old(self)@,
                };
                let gone = old(self)@.containers.contains_key(pid)
                    && old(self)@.containers[pid].drains_pending == 0;
                &&& match out.notify {
                    Some(sid) => old(self)@.sessions.contains_key(sid)
                        && old(self)@.sessions[sid].container_pid == pid,
                    None => !old(self)@.watched(pid),
                }
                &&& gone ==> final(self)@ == told.buried(pid) && out.removed.of(
                    old(self)@.containers[pid],
                )
                &&& !gone ==> final(self)@ == told && out.removed.nothing()
            }),
    {
        let code: i32 = sys::exit_code(status);
        let notify: Option<u64> = self.session_of(pid);
        if let Some(sid) = notify {
            let session: Option<&AttachSession> = self.attach_sessions.get(&sid);
            if let Some(s) = session {
                let mut told: AttachSession = *s;
                told.child_exited = true;
                told.exit_code = Some(code);
                self.attach_sessions.insert(sid, told);
            }
        }
        let gone: bool = match self.container(pid) {
            Some(info) => info.drains_pending == 0,
            None => false,
        };
        let removed: Removed = if gone {
            self.bury(pid)
        } else {
            Removed { close: Vec::new(), cleanup: None }
        };
        Reaped { notify, removed }
    }

    /// Ends one output drain of container `pid`. With the last drain the
    /// container goes.
    pub fn finish_drain(&mut self, pid: i32) -> (removed: Removed)
        requires
            old(self).wf(),
        ensures
            final(self).wf(),
            final(self)@ == old(self)@.drain_done(pid),
            if final(self)@.containers.contains_key(pid) || !old(self)@.containers.contains_key(
                pid,
            ) {
                removed.nothing()
            } else {
                removed.of(old(self)@.containers[pid])
            },
    {
        let pending: u32 = match self.container(pid) {
            Some(info) => info.drains_pending,
            None => {
                return Removed { close: Vec::new(), cleanup: None };
            },
        };
        if pending > 1 {
            if let Some(mut info) = self.take_container(pid) {
                info.drains_pending = pending - 1;
                self.put_container(info);
                assert(self@.containers =~= old(self)@.containers.insert(
                    pid,
                    Container {
                        drains_pending: (pending - 1) as u32,
                        ..old(self)@.containers[pid]
                    },
                ));
            }
            Removed { close: Vec::new(), cleanup: None }
        } else {
            self.bury(pid)
        }
    }
}

/// A container's log outlives it: whoever asks for the log of any pid gets the
/// same text before and after the container goes.
pub proof fn log_survives_exit(s: State, pid: i32, asked: i32)
    requires
        s.containers.contains_key(pid),
    ensures
        s.buried(pid).stored_log(asked) == s.stored_log(asked),
{
}

/// A container stays, with all its pipes, until as many drains ended as were
/// counted; with the last one it goes, and its log stays readable.
pub proof fn container_goes_with_last_drain(s: State, pid: i32, n: nat)
    requires
        s.containers.contains_key(pid),
        1 <= s.containers[pid].drains_pending,
        n <= s.containers[pid].drains_pending,
    ensures
        n < s.containers[pid].drains_pending ==> s.drains_done(pid, n).containers == s.containers.insert(
            pid,
            Container {
                drains_pending: (s.containers[pid].drains_pending - n) as u32,
                ..s.containers[pid]
            },
        ),
        n == s.containers[pid].drains_pending ==> s.drains_done(pid, n).containers
            == s.containers.remove(pid),
        forall|asked: i32| #[trigger]
            s.drains_done(pid, n).stored_log(asked) == s.stored_log(asked),
    decreases n,
{
    let c = s.containers[pid];
    if n == 0 {
        assert(s.containers =~= s.containers.insert(
            pid,
            Container { drains_pending: c.drains_pending, ..c },
        ));
    } else {
        container_goes_with_last_drain(s, pid, (n - 1) as nat);
        let before = s.drains_done(pid, (n - 1) as nat);
        let after = s.drains_done(pid, n);
        assert(before.containers[pid] == (Container {
            drains_pending: (c.drains_pending - (n - 1)) as u32,
            ..c
        }));
        if n < c.drains_pending {
            assert(after.containers =~= s.containers.insert(
                pid,
                Container { drains_pending: (c.drains_pending - n) as u32, ..c },
            ));
        } else {
            assert(after.containers =~= s.containers.remove(pid));
        }
        assert forall|asked: i32| #[trigger] after.stored_log(asked) == s.stored_log(asked) by {
            assert(before.stored_log(asked) == s.stored_log(asked));
        }
    }
}

/// A container leaves the state once: a second removal finds nothing.
pub proof fn removal_happens_once(s: State, pid: i32)
    ensures
        !s.buried(pid).containers.contains_key(pid),
        s.buried(pid).containers.dom() =~= s.containers.dom().remove(pid),
        s.buried(pid).sessions == s.sessions,
        s.buried(pid).outputs == s.outputs,
{
}

/// A container that goes takes its descriptors along, all that are open and no
/// others: its PTY, its stdin pipe and the pipes of its followers.
pub proof fn gone_container_leaks_nothing(c: Container, fd: i32)
    ensures
        container_fds(c).contains(fd) <==> fd >= 0 && (fd == c.ptm_fd || fd == c.stdin_fd
            || exists|i: int| 0 <= i < c.pipes.len() && (#[trigger] c.pipes[i]).fd == fd),
        c.ptm_fd < 0 && c.stdin_fd < 0 ==> container_fds(c) == log::open_fds(c.pipes),
        c.ptm_fd >= 0 && c.stdin_fd < 0 ==> container_fds(c) == seq![c.ptm_fd] + log::open_fds(
            c.pipes,
        ),
        c.ptm_fd < 0 && c.stdin_fd >= 0 ==> container_fds(c) == seq![c.stdin_fd] + log::open_fds(
            c.pipes,
        ),
        c.ptm_fd >= 0 && c.stdin_fd >= 0 ==> container_fds(c) == seq![c.ptm_fd, c.stdin_fd]
            + log::open_fds(c.pipes),
{
    let a = if_open(c.ptm_fd);
    let b = if_open(c.stdin_fd);
    let p = log::open_fds(c.pipes);
    log::every_open_pipe_is_closed(c.pipes, fd);
    if container_fds(c).contains(fd) {
        let k = choose|k: int| 0 <= k < container_fds(c).len() && container_fds(c)[k] == fd;
        if k >= (a + b).len() {
            assert(p[k - (a + b).len()] == fd);
        }
    }
    if fd >= 0 && fd == c.ptm_fd {
        assert(container_fds(c)[0] == fd);
    } else if fd >= 0 && fd == c.stdin_fd {
        assert(container_fds(c)[a.len() as int] == fd);
    } else if p.contains(fd) {
        let k = choose|k: int| 0 <= k < p.len() && p[k] == fd;
        assert(container_fds(c)[(a + b).len() + k] == fd);
    }
}

/// A container's overlay is removed with it exactly when it was not to be
/// saved.
pub proof fn saved_overlay_stays(c: Container)
    ensures
        c.save ==> overlay_to_clean(c) is None,
        !c.save ==> overlay_to_clean(c) == c.overlay_dir,
{
}

/// Telling a session of an exit changes that session alone. It keeps its
/// descriptors, so that output which is still to come reaches the client.
pub proof fn exit_concerns_one_session(s: State, sid: u64, other: u64, status: i32, n: i32)
    requires
        s.sessions.contains_key(sid),
        other != sid,
    ensures
        ({
            let after = s.told(sid, status);
            let t = after.sessions[sid];
            &&& t.child_exited
            &&& t.stream_fd == s.sessions[sid].stream_fd && t.ptm_fd == s.sessions[sid].ptm_fd
            &&& t.log_read_fd == s.sessions[sid].log_read_fd && t.input_fd
                == s.sessions[sid].input_fd && t.container_pid == s.sessions[sid].container_pid
            &&& 0 <= n <= 255 && status == n << 8 ==> t.exit_code == Some(n)
            &&& 1 <= n <= 126 && status & 0x7f == n ==> t.exit_code == Some((128 + n) as i32)
            &&& after.sessions.contains_key(other) == s.sessions.contains_key(other)
            &&& after.sessions[other] == s.sessions[other]
            &&& after.containers == s.containers && after.outputs == s.outputs && after.graveyard
                == s.graveyard
        }),
{
    if 0 <= n <= 255 {
        sys::own_exit_code_is_reported(n);
    }
    if 1 <= n <= 126 && status & 0x7f == n {
        sys::fatal_signal_is_reported(status, n as int);
    }
}

/// The end of a drain concerns its own container. While others of its drains
/// run it only counts down; without any left it goes, and its log stays
/// readable. No session and no other container changes.
pub proof fn drain_concerns_one_container(s: State, pid: i32, other: i32)
    requires
        other != pid,
    ensures
        ({
            let after = s.drain_done(pid);
            &&& !s.containers.contains_key(pid) ==> after == s
            &&& s.containers.contains_key(pid) ==> {
                &&& after.containers.contains_key(pid) <==> s.containers[pid].drains_pending > 1
                &&& s.containers[pid].drains_pending > 1 ==> after.containers[pid].drains_pending
                    == s.containers[pid].drains_pending - 1 && after.containers[pid] == (Container {
                    drains_pending: after.containers[pid].drains_pending,
                    ..s.containers[pid]
                })
                &&& after.stored_log(pid) == Some(s.containers[pid].log)
            }
            &&& after.containers.contains_key(other) == s.containers.contains_key(other)
            &&& after.containers[other] == s.containers[other]
            &&& after.stored_log(other) == s.stored_log(other)
            &&& after.sessions == s.sessions && after.outputs == s.outputs
        }),
{
}

/// A client that just connected has no container, no descriptor but its stream
/// and no exit code.
pub proof fn fresh_session_is_blank(stream_fd: i32)
    ensures
        ({
            let s = AttachSession::fresh(stream_fd);
            &&& s.stream_fd == stream_fd
            &&& s.ptm_fd < 0 && s.input_fd < 0 && s.log_read_fd < 0
            &&& s.container_pid == 0 && !s.child_exited && s.exit_code is None
        }),
{
}

/// What is done after a container left is what it left behind: its open
/// descriptors are closed, and its overlay is cleaned up, if it has one that
/// was not to be saved.
pub proof fn removal_cleans_up(removed: Removed, c: Container, fd: i32)
    requires
        removed.of(c),
    ensures
        removed.close@.contains(fd) <==> fd >= 0 && (fd == c.ptm_fd || fd == c.stdin_fd
            || exists|i: int| 0 <= i < c.pipes.len() && (#[trigger] c.pipes[i]).fd == fd),
        removed.cleanup is Some <==> !c.save && c.overlay_dir is Some,
        removed.cleanup matches Some(dir) ==> Some(dir@) == c.overlay_dir,
        removed.nothing() ==> removed.close@.len() == 0 && removed.cleanup is None,
{
    gone_container_leaks_nothing(c, fd);
}

/// Where nothing is to be done, nothing is closed and no overlay is removed.
pub proof fn nothing_means_nothing(removed: Removed)
    ensures
        removed.nothing() <==> removed.close@.len() == 0 && removed.cleanup is None,
{
    if removed.close@.len() == 0 {
        assert(removed.close@ =~= Seq::<i32>::empty());
    }
}

/// A container is watched exactly when some session has its pid.
pub proof fn watched_means_a_session(s: State, pid: i32, sid: u64)
    ensures
        s.sessions.contains_key(sid) && s.sessions[sid].container_pid == pid ==> s.watched(pid),
        s.watched(pid) ==> exists|id: u64| #[trigger]
            s.sessions.contains_key(id) && s.sessions[id].container_pid == pid,
        s.sessions.dom() =~= Set::<u64>::empty() ==> !s.watched(pid),
{
}

} // verus!
