//! Containers, their output and who follows it.

use std::collections::HashMap;

use vstd::prelude::*;
use vstd::std_specs::hash::*;

use crate::daemon;
use crate::daemon::requests;
use crate::daemon::requests::ContainerRow;
use crate::lines;
use crate::lines::NEWLINE;
use crate::log;
use crate::log::AsyncPipeWriter;
use crate::log::LogCache;
use crate::log::LogGateway;
use crate::log::LOG_CAPACITY;
use crate::protocol;
use crate::protocol::ErrorResponse;
use crate::protocol::KillResponse;
use crate::reactor::ops;
use crate::reactor::ops::push_closes;
use crate::reactor::ops::push_op;
use crate::reactor::ops::Act;
use crate::reactor::ops::Op;
use crate::reactor::route::Route;
use crate::reactor::route::FIRST_OUTPUT;
use crate::reactor::streams::OUTPUT_CHUNK;
use crate::sys::FdPair;

verus! {

broadcast use vstd::std_specs::hash::group_hash_axioms;

/// What is kept of one container.
pub struct WatchedContainer {
    pub pid: i32,
    pub command: String,
    pub overlay_dir: Option<String>,
    pub save: bool,
    pub start_time: u64,
    pub gateway: LogGateway,
    /// Followers whose backlog is still being written. Meanwhile no more
    /// output is read, so that the backlog and what follows it join up.
    pub lock_count: usize,
}

/// A container as the contracts speak of it.
#[verifier::ext_equal]
pub struct Watched {
    pub command: Seq<char>,
    pub overlay_dir: Option<Seq<char>>,
    pub save: bool,
    pub start_time: u64,
    pub log: Seq<u8>,
    pub pipes: Seq<AsyncPipeWriter>,
    pub locks: usize,
}

impl View for WatchedContainer {
    type V = Watched;

    open spec fn view(&self) -> Watched {
        Watched {
            command: self.command@,
            overlay_dir: daemon::text_of(self.overlay_dir),
            save: self.save,
            start_time: self.start_time,
            log: self.gateway.cache@,
            pipes: self.gateway.pipes@,
            locks: self.lock_count,
        }
    }
}

impl WatchedContainer {
    pub open spec fn wf(&self) -> bool {
        self.gateway.wf() && self.gateway.cache.capacity() == LOG_CAPACITY
    }
}

/// A pipe that a container writes its output to.
pub struct Output {
    pub fd: i32,
    pub pid: i32,
    /// What came out after the last newline.
    pub line_buf: Vec<u8>,
}

/// An output as the contracts speak of it.
#[verifier::ext_equal]
pub struct OutputState {
    pub fd: i32,
    pub pid: i32,
    pub tail: Seq<u8>,
}

impl View for Output {
    type V = OutputState;

    open spec fn view(&self) -> OutputState {
        OutputState { fd: self.fd, pid: self.pid, tail: self.line_buf@ }
    }
}

/// A follower that does not have its pipe yet.
#[derive(Clone, Copy, Debug, PartialEq, Eq, Structural)]
pub struct Follow {
    pub pid: i32,
    pub writer: i32,
    pub reader: i32,
}

/// A log after `lines` were added to it, one after the other.
pub open spec fn logged(log: Seq<u8>, lines: Seq<Seq<u8>>) -> Seq<u8>
    decreases lines.len(),
{
    if lines.len() == 0 {
        log
    } else {
        log::log_pushed(logged(log, lines.drop_last()), LOG_CAPACITY as int, lines.last())
    }
}

/// Writing `line` to every pipe with no write outstanding.
pub open spec fn line_writes(pipes: Seq<AsyncPipeWriter>, line: Seq<u8>) -> Seq<Act> {
    requests::idle_targets(pipes).map_values(
        |t: (u64, i32)|
            Act::Write { fd: t.1, bytes: line.push(NEWLINE), route: Route::PipeWrite(t.0) },
    )
}

/// Whether `rows` lists every container once and nothing else.
pub open spec fn lists(rows: Seq<ContainerRow>, containers: Map<i32, Watched>) -> bool {
    &&& rows.len() == containers.dom().len()
    &&& forall|i: int|
        0 <= i < rows.len() ==> {
            let row = #[trigger] rows[i];
            &&& containers.contains_key(row.pid)
            &&& row.command@ == containers[row.pid].command
            &&& row.start_time == containers[row.pid].start_time
        }
    &&& forall|i: int, j: int|
        0 <= i < j < rows.len() ==> (#[trigger] rows[i]).pid != (#[trigger] rows[j]).pid
}

/// Everything as the contracts speak of it.
#[verifier::ext_equal]
pub struct BoardState {
    pub containers: Map<i32, Watched>,
    pub outputs: Map<u64, OutputState>,
    pub graveyard: Map<i32, Seq<u8>>,
    pub follows: Map<u64, Follow>,
    /// The container that each pipe belongs to.
    pub pipe_owner: Map<u64, i32>,
    pub next_output_id: u64,
    pub next_follow_id: u64,
    pub next_pipe_id: u64,
}

impl BoardState {
    /// Nothing runs, and nothing has run yet.
    pub open spec fn idle() -> BoardState {
        BoardState {
            containers: Map::empty(),
            outputs: Map::empty(),
            graveyard: Map::empty(),
            follows: Map::empty(),
            pipe_owner: Map::empty(),
            next_output_id: FIRST_OUTPUT,
            next_follow_id: 0,
            next_pipe_id: 0,
        }
    }

    pub open spec fn with_container(self, pid: i32, c: Watched) -> BoardState {
        BoardState { containers: self.containers.insert(pid, c), ..self }
    }

    /// Whether a follower of container `pid` still waits for its backlog.
    pub open spec fn locked(self, pid: i32) -> bool {
        self.containers.contains_key(pid) && self.containers[pid].locks > 0
    }

    /// With `n` more followers, or fewer, waiting on container `pid`.
    pub open spec fn locks_changed(self, pid: i32, n: int) -> BoardState {
        if self.containers.contains_key(pid) {
            let c = self.containers[pid];
            self.with_container(pid, Watched { locks: (c.locks + n) as usize, ..c })
        } else {
            self
        }
    }

    /// After `lines` came out of container `pid`. They are added to its log,
    /// or to the log that it left behind, and the first of them is written to
    /// every idle pipe.
    pub open spec fn with_lines(self, pid: i32, lines: Seq<Seq<u8>>) -> BoardState {
        if lines.len() == 0 {
            self
        } else if self.containers.contains_key(pid) {
            let c = self.containers[pid];
            self.with_container(
                pid,
                Watched {
                    log: logged(c.log, lines),
                    pipes: log::all_in_flight(c.pipes),
                    ..c
                },
            )
        } else if self.graveyard.contains_key(pid) {
            BoardState {
                graveyard: self.graveyard.insert(pid, logged(self.graveyard[pid], lines)),
                ..self
            }
        } else {
            self
        }
    }

    /// What the arrival of `lines` from container `pid` calls for.
    pub open spec fn on_lines(self, pid: i32, lines: Seq<Seq<u8>>) -> Seq<Act> {
        if lines.len() > 0 && self.containers.contains_key(pid) {
            line_writes(self.containers[pid].pipes, lines[0])
        } else {
            Seq::empty()
        }
    }

    /// Reading more of output `id`.
    pub open spec fn output_read(self, id: u64) -> Act {
        Act::Read { fd: self.outputs[id].fd, len: OUTPUT_CHUNK, route: Route::Output(id) }
    }

    /// After `bytes` came out of output `id`.
    pub open spec fn after_output(self, id: u64, bytes: Seq<u8>) -> BoardState {
        let o = self.outputs[id];
        let stream = o.tail + bytes;
        let next = self.with_lines(o.pid, lines::lines_of(stream));
        BoardState {
            outputs: self.outputs.insert(
                id,
                OutputState { tail: lines::tail_of(stream), ..o },
            ),
            ..next
        }
    }

    /// What `bytes` out of output `id` call for: the lines go to the
    /// followers, and more is read unless the container is locked.
    pub open spec fn on_output(self, id: u64, bytes: Seq<u8>) -> Seq<Act> {
        let o = self.outputs[id];
        self.on_lines(o.pid, lines::lines_of(o.tail + bytes)) + if self.locked(o.pid) {
            Seq::empty()
        } else {
            seq![self.output_read(id)]
        }
    }

    /// Whether some output comes from container `pid`.
    pub open spec fn has_output(self, pid: i32) -> bool {
        exists|id: u64| #[trigger] self.outputs.contains_key(id) && self.outputs[id].pid == pid
    }

    /// After follower `id` of a container got its backlog: its pipe belongs to
    /// the container from now on.
    pub open spec fn follower_joined(self, id: u64) -> BoardState {
        let f = self.follows[id];
        let pipe = self.next_pipe_id;
        let counted = BoardState { next_pipe_id: (pipe + 1) as u64, ..self };
        if self.containers.contains_key(f.pid) {
            let c = self.containers[f.pid];
            BoardState { pipe_owner: self.pipe_owner.insert(pipe, f.pid), ..counted }.with_container(
                f.pid,
                Watched {
                    pipes: c.pipes.push(AsyncPipeWriter { id: pipe, fd: f.writer, in_flight: false }),
                    locks: (c.locks - 1) as usize,
                    ..c
                },
            )
        } else {
            counted
        }
    }

    /// After the backlog of follower `id` was written with result `ret`.
    pub open spec fn after_backlog(self, id: u64, ret: i32) -> BoardState {
        if !self.follows.contains_key(id) {
            self
        } else if ret < 0 {
            BoardState { follows: self.follows.remove(id), ..self }.locks_changed(
                self.follows[id].pid,
                -1,
            )
        } else {
            self.follower_joined(id)
        }
    }

    /// What the end of the backlog write of follower `id` calls for. After an
    /// error both ends of the pipe are closed. Else one output of the
    /// container is read again, if there is one, and the follower is handed
    /// its end.
    pub open spec fn answers_backlog(self, id: u64, ret: i32, out: Seq<Act>) -> bool {
        let f = self.follows[id];
        if !self.follows.contains_key(id) {
            out == Seq::<Act>::empty()
        } else if ret < 0 {
            out == seq![Act::Close { fd: f.writer }, Act::Close { fd: f.reader }]
        } else if self.has_output(f.pid) {
            exists|o: u64| #[trigger]
                self.outputs.contains_key(o) && self.outputs[o].pid == f.pid && out == seq![
                    self.output_read(o),
                    Act::PassFd { fd: f.reader, route: Route::FollowFd(id) },
                ]
        } else {
            out == seq![Act::PassFd { fd: f.reader, route: Route::FollowFd(id) }]
        }
    }

    /// Whether every line that `bytes` complete on output `id` is short enough
    /// for the log.
    pub open spec fn lines_fit(self, id: u64, bytes: Seq<u8>) -> bool {
        self.outputs.contains_key(id) ==> forall|i: int|
            0 <= i < lines::lines_of(self.outputs[id].tail + bytes).len() ==> (
            #[trigger] lines::lines_of(self.outputs[id].tail + bytes)[i]).len() < LOG_CAPACITY
    }

    /// Whether `after` and `acts` follow from a read of output `id` that came
    /// back with `result`. An output that ended is closed.
    pub open spec fn output_done(
        self,
        id: u64,
        result: i32,
        buffer: Seq<u8>,
        after: BoardState,
        acts: Seq<Act>,
    ) -> bool {
        if !self.outputs.contains_key(id) {
            after =~= self && acts =~= Seq::<Act>::empty()
        } else if result <= 0 {
            &&& after =~= (BoardState { outputs: self.outputs.remove(id), ..self })
            &&& acts =~= seq![Act::Close { fd: self.outputs[id].fd }]
        } else {
            let bytes = buffer.take(result as int);
            after =~= self.after_output(id, bytes) && acts =~= self.on_output(id, bytes)
        }
    }

    /// Whether `after` and `acts` follow from the end of the message that
    /// handed follower `id` its pipe.
    pub open spec fn fd_passed(self, id: u64, after: BoardState, acts: Seq<Act>) -> bool {
        &&& after =~= (BoardState { follows: self.follows.remove(id), ..self })
        &&& acts =~= if self.follows.contains_key(id) {
            seq![Act::Close { fd: self.follows[id].reader }]
        } else {
            Seq::empty()
        }
    }

    /// Whether `after` and `acts` follow from a write to pipe `pipe_id` that
    /// came back with `ret`.
    pub open spec fn pipe_written(
        self,
        pipe_id: u64,
        ret: i32,
        after: BoardState,
        acts: Seq<Act>,
    ) -> bool {
        let pid = self.pipe_owner[pipe_id];
        let forgotten = BoardState { pipe_owner: self.pipe_owner.remove(pipe_id), ..self };
        if !self.pipe_owner.contains_key(pipe_id) {
            after =~= self && acts =~= Seq::<Act>::empty()
        } else if !self.containers.contains_key(pid) {
            after =~= forgotten && acts =~= Seq::<Act>::empty()
        } else {
            let c = self.containers[pid];
            let at = log::pipe_index(c.pipes, pipe_id);
            let dead = ret < 0 && at < c.pipes.len();
            let done = Watched {
                pipes: log::pipes_completed(c.pipes, pipe_id, ret >= 0),
                ..c
            };
            &&& after =~= if dead {
                forgotten.with_container(pid, done)
            } else {
                self.with_container(pid, done)
            }
            &&& acts =~= if dead {
                seq![Act::Close { fd: c.pipes[at].fd }]
            } else {
                Seq::empty()
            }
        }
    }

    /// Whether follower `id` may get its backlog now: it holds a lock, unless
    /// its container is gone.
    pub open spec fn follower_locks(self, id: u64) -> bool {
        self.follows.contains_key(id) && self.containers.contains_key(self.follows[id].pid)
            ==> self.containers[self.follows[id].pid].locks > 0
    }

    /// Without container `pid`, of which only the log is kept.
    pub open spec fn buried(self, pid: i32) -> BoardState {
        BoardState {
            containers: self.containers.remove(pid),
            graveyard: self.graveyard.insert(pid, self.containers[pid].log),
            ..self
        }
    }

    /// Without any pipe of container `pid`.
    pub open spec fn pipes_disowned(self, pid: i32) -> BoardState {
        BoardState {
            pipe_owner: self.pipe_owner.filter_keys(|id: u64| self.pipe_owner[id] != pid),
            ..self
        }
    }

    /// The log of `pid`: the container's, or else what it left behind.
    pub open spec fn stored_log(self, pid: i32) -> Option<Seq<u8>> {
        if self.containers.contains_key(pid) {
            Some(self.containers[pid].log)
        } else if self.graveyard.contains_key(pid) {
            Some(self.graveyard[pid])
        } else {
            None
        }
    }
}

/// Containers, outputs and followers.
pub struct Board {
    containers: HashMap<i32, WatchedContainer>,
    outputs: HashMap<u64, Output>,
    log_graveyard: HashMap<i32, LogCache>,
    follow_pend: HashMap<u64, Follow>,
    pipe_map: HashMap<u64, i32>,
    next_output_id: u64,
    next_follow_id: u64,
    next_pipe_id: u64,
}

impl View for Board {
    type V = BoardState;

    closed spec fn view(&self) -> BoardState {
        BoardState {
            containers: self.containers@.map_values(|c: WatchedContainer| c@),
            outputs: self.outputs@.map_values(|o: Output| o@),
            graveyard: self.log_graveyard@.map_values(|c: LogCache| c@),
            follows: self.follow_pend@,
            pipe_owner: self.pipe_map@,
            next_output_id: self.next_output_id,
            next_follow_id: self.next_follow_id,
            next_pipe_id: self.next_pipe_id,
        }
    }
}

impl Board {
    /// Every log is well formed, and a container is found under its pid.
    pub closed spec fn wf(&self) -> bool {
        &&& forall|pid: i32| #[trigger]
            self.containers@.contains_key(pid) ==> self.containers@[pid].wf()
                && self.containers@[pid].pid == pid
        &&& forall|pid: i32| #[trigger]
            self.log_graveyard@.contains_key(pid) ==> self.log_graveyard@[pid].wf()
                && self.log_graveyard@[pid].capacity() == LOG_CAPACITY
    }

    pub fn new() -> (board: Self)
        ensures
            board.wf(),
            board@ == BoardState::idle(),
    {
        let board = Board {
            containers: HashMap::new(),
            outputs: HashMap::new(),
            log_graveyard: HashMap::new(),
            follow_pend: HashMap::new(),
            pipe_map: HashMap::new(),
            next_output_id: FIRST_OUTPUT,
            next_follow_id: 0,
            next_pipe_id: 0,
        };
        assert(board@.containers =~= Map::<i32, Watched>::empty());
        assert(board@.outputs =~= Map::<u64, OutputState>::empty());
        assert(board@.graveyard =~= Map::<i32, Seq<u8>>::empty());
        board
    }

    fn take_container(&mut self, pid: i32) -> (c: Option<WatchedContainer>)
        requires
            old(self).wf(),
        ensures
            final(self).wf(),
            match c {
                Some(c) => {
                    &&& old(self)@.containers.contains_key(pid)
                    &&& c@ == old(self)@.containers[pid]
                    &&& c.wf()
                    &&& c.pid == pid
                    &&& final(self)@ == (BoardState {
                        containers: old(self)@.containers.remove(pid),
                        ..old(self)@
                    })
                },
                None => !old(self)@.containers.contains_key(pid) && final(self)@ == old(self)@,
            },
    {
        let c: Option<WatchedContainer> = self.containers.remove(&pid);
        assert(self@.containers =~= old(self)@.containers.remove(pid));
        if c.is_none() {
            assert(self@.containers =~= old(self)@.containers);
        }
        c
    }

    fn put_container(&mut self, c: WatchedContainer)
        requires
            old(self).wf(),
            c.wf(),
        ensures
            final(self).wf(),
            final(self)@ == old(self)@.with_container(c.pid, c@),
    {
        let ghost view = c@;
        let pid: i32 = c.pid;
        self.containers.insert(pid, c);
        assert(self@.containers =~= old(self)@.containers.insert(pid, view));
    }

    /// Hands out the number of the next container's output.
    pub fn reserve_output(&mut self) -> (id: u64)
        requires
            old(self).wf(),
            old(self)@.next_output_id < u64::MAX,
        ensures
            final(self).wf(),
            id == old(self)@.next_output_id,
            final(self)@ == (BoardState { next_output_id: (id + 1) as u64, ..old(self)@ }),
    {
        let id: u64 = self.next_output_id;
        self.next_output_id = id + 1;
        id
    }

    /// Starts reading the output of container `pid` from `fd`.
    pub fn add_output(&mut self, id: u64, pid: i32, fd: i32) -> (out: Vec<Op>)
        requires
            old(self).wf(),
        ensures
            final(self).wf(),
            final(self)@ == (BoardState {
                outputs: old(self)@.outputs.insert(
                    id,
                    OutputState { fd, pid, tail: Seq::empty() },
                ),
                ..old(self)@
            }),
            ops::acts(out@) == seq![final(self)@.output_read(id)],
    {
        let output = Output { fd, pid, line_buf: Vec::new() };
        let ghost view = output@;
        assert(view =~= OutputState { fd, pid, tail: Seq::empty() });
        self.outputs.insert(id, output);
        assert(self@.outputs =~= old(self)@.outputs.insert(id, view));
        let mut out: Vec<Op> = Vec::new();
        push_op(&mut out, Op::Read { fd, len: OUTPUT_CHUNK, route: Route::Output(id) });
        assert(ops::acts(out@) =~= seq![self@.output_read(id)]);
        out
    }

    /// Stops reading output `id`.
    pub fn cleanup_output(&mut self, id: u64) -> (out: Vec<Op>)
        requires
            old(self).wf(),
        ensures
            final(self).wf(),
            final(self)@ == (BoardState {
                outputs: old(self)@.outputs.remove(id),
                ..old(self)@
            }),
            ops::acts(out@) == if old(self)@.outputs.contains_key(id) {
                seq![Act::Close { fd: old(self)@.outputs[id].fd }]
            } else {
                Seq::empty()
            },
    {
        let mut out: Vec<Op> = Vec::new();
        let gone: Option<Output> = self.outputs.remove(&id);
        assert(self@.outputs =~= old(self)@.outputs.remove(id));
        if let Some(output) = gone {
            push_op(&mut out, Op::Close { fd: output.fd });
        }
        assert(ops::acts(out@) =~= if old(self)@.outputs.contains_key(id) {
            seq![Act::Close { fd: old(self)@.outputs[id].fd }]
        } else {
            Seq::empty()
        });
        out
    }

    /// Records a container that was started.
    pub fn add_container(
        &mut self,
        pid: i32,
        command: String,
        overlay_dir: Option<String>,
        save: bool,
        start_time: u64,
    )
        requires
            old(self).wf(),
        ensures
            final(self).wf(),
            final(self)@ == old(self)@.with_container(
                pid,
                Watched {
                    command: command@,
                    overlay_dir: daemon::text_of(overlay_dir),
                    save,
                    start_time,
                    log: Seq::empty(),
                    pipes: Seq::empty(),
                    locks: 0,
                },
            ),
    {
        self.put_container(
            WatchedContainer {
                pid,
                command,
                overlay_dir,
                save,
                start_time,
                gateway: LogGateway::new(LOG_CAPACITY),
                lock_count: 0,
            },
        );
    }
}

proof fn lemma_busy_targets(pipes: Seq<AsyncPipeWriter>)
    ensures
        requests::idle_targets(log::all_in_flight(pipes)) == Seq::<(u64, i32)>::empty(),
    decreases pipes.len(),
{
    if pipes.len() > 0 {
        assert(log::all_in_flight(pipes).drop_last() =~= log::all_in_flight(pipes.drop_last()));
        lemma_busy_targets(pipes.drop_last());
    }
}

impl Board {
    /// Adds one line of container `pid`'s output to its log and starts writing
    /// it to the idle pipes.
    fn record_line(&mut self, pid: i32, line: &[u8], out: &mut Vec<Op>)
        requires
            old(self).wf(),
            line@.len() < LOG_CAPACITY,
        ensures
            final(self).wf(),
            final(self)@ == old(self)@.with_lines(pid, seq![line@]),
            ops::acts(final(out)@) == ops::acts(old(out)@) + old(self)@.on_lines(pid, seq![line@]),
    {
        let ghost one = seq![line@];
        assert(one.drop_last() =~= Seq::<Seq<u8>>::empty());
        reveal_with_fuel(logged, 2);
        match self.take_container(pid) {
            Some(info) => {
                let mut info = info;
                let ghost pipes = info.gateway.pipes@;
                let mut i: usize = 0;
                assert(pipes.take(0) =~= Seq::empty());
                assert(line_writes(pipes.take(0), line@) =~= Seq::<Act>::empty());
                while i < info.gateway.pipes.len()
                    invariant
                        i <= pipes.len(),
                        pipes == info.gateway.pipes@,
                        ops::acts(out@) == ops::acts(old(out)@) + line_writes(
                            pipes.take(i as int),
                            line@,
                        ),
                    decreases pipes.len() - i,
                {
                    assert(pipes.take(i + 1).drop_last() =~= pipes.take(i as int));
                    if !info.gateway.pipes[i].in_flight {
                        let mut bytes: Vec<u8> = lines::copy_range(line, 0, line.len());
                        bytes.push(NEWLINE);
                        assert(bytes@ =~= line@.push(NEWLINE));
                        push_op(
                            out,
                            Op::Write {
                                fd: info.gateway.pipes[i].fd,
                                bytes,
                                route: Route::PipeWrite(info.gateway.pipes[i].id),
                            },
                        );
                    }
                    i = i + 1;
                    assert(ops::acts(out@) =~= ops::acts(old(out)@) + line_writes(
                        pipes.take(i as int),
                        line@,
                    ));
                }
                assert(pipes.take(i as int) =~= pipes);
                info.gateway.push(line);
                self.put_container(info);
                assert(self@.containers =~= old(self)@.with_lines(pid, one).containers);
                assert(self@ =~= old(self)@.with_lines(pid, one));
            },
            None => {
                match self.log_graveyard.remove(&pid) {
                    Some(cache) => {
                        let mut cache = cache;
                        assert(old(self)@.graveyard.contains_key(pid));
                        cache.push(line);
                        self.log_graveyard.insert(pid, cache);
                        assert(self@.graveyard =~= old(self)@.with_lines(pid, one).graveyard);
                        assert(self@ =~= old(self)@.with_lines(pid, one));
                    },
                    None => {
                        assert(self@.graveyard =~= old(self)@.graveyard);
                        assert(self@ =~= old(self)@);
                    },
                }
                assert(ops::acts(out@) =~= ops::acts(old(out)@) + old(self)@.on_lines(pid, one));
            },
        }
    }

    /// Adds lines of container `pid`'s output, in order.
    fn record_lines(&mut self, pid: i32, new: &Vec<Vec<u8>>, out: &mut Vec<Op>)
        requires
            old(self).wf(),
            forall|i: int| 0 <= i < new@.len() ==> (#[trigger] new@[i])@.len() < LOG_CAPACITY,
        ensures
            final(self).wf(),
            final(self)@ == old(self)@.with_lines(pid, lines::views(new@)),
            ops::acts(final(out)@) == ops::acts(old(out)@) + old(self)@.on_lines(
                pid,
                lines::views(new@),
            ),
    {
        let ghost all = lines::views(new@);
        let ghost start = self@;
        let mut i: usize = 0;
        assert(ops::acts(out@) + start.on_lines(pid, all.take(0)) =~= ops::acts(out@));
        while i < new.len()
            invariant
                i <= new@.len(),
                all == lines::views(new@),
                forall|k: int| 0 <= k < new@.len() ==> (#[trigger] new@[k])@.len() < LOG_CAPACITY,
                self.wf(),
                start == old(self)@,
                self@ == start.with_lines(pid, all.take(i as int)),
                ops::acts(out@) == ops::acts(old(out)@) + start.on_lines(
                    pid,
                    all.take(i as int),
                ),
            decreases new@.len() - i,
        {
            let ghost before = self@;
            self.record_line(pid, new[i].as_slice(), out);
            proof {
                let one = seq![all[i as int]];
                assert(new@[i as int]@ == all[i as int]);
                assert(one.drop_last() =~= Seq::<Seq<u8>>::empty());
                assert(all.take(i + 1).drop_last() =~= all.take(i as int));
                reveal_with_fuel(logged, 2);
                if start.containers.contains_key(pid) {
                    lemma_busy_targets(start.containers[pid].pipes);
                    let pipes = start.containers[pid].pipes;
                    assert(log::all_in_flight(log::all_in_flight(pipes)) =~= log::all_in_flight(
                        pipes,
                    ));
                    if i > 0 {
                        assert(before.on_lines(pid, one) =~= Seq::<Act>::empty());
                        assert(all.take(i + 1)[0] == all.take(i as int)[0]);
                    } else {
                        assert(all.take(1)[0] == all[0]);
                        assert(start.on_lines(pid, all.take(0)) =~= Seq::<Act>::empty());
                    }
                    assert(self@.containers =~= start.with_lines(pid, all.take(i + 1)).containers);
                } else if start.graveyard.contains_key(pid) {
                    assert(self@.graveyard =~= start.with_lines(pid, all.take(i + 1)).graveyard);
                }
                assert(self@ =~= start.with_lines(pid, all.take(i + 1)));
                assert(ops::acts(out@) =~= ops::acts(old(out)@) + start.on_lines(
                    pid,
                    all.take(i + 1),
                ));
            }
            i = i + 1;
        }
        assert(all.take(i as int) =~= all);
    }

    /// Handles a completed read of output `id` with result `result`. `buffer`
    /// is the buffer that was read into.
    pub fn handle_output(&mut self, id: u64, result: i32, buffer: &[u8]) -> (out: Vec<Op>)
        requires
            old(self).wf(),
            result <= buffer@.len(),
            result > 0 ==> old(self)@.lines_fit(id, buffer@.take(result as int)),
        ensures
            final(self).wf(),
            old(self)@.output_done(id, result, buffer@, final(self)@, ops::acts(out@)),
    {
        if result <= 0 {
            let out: Vec<Op> = self.cleanup_output(id);
            proof {
                if !old(self)@.outputs.contains_key(id) {
                    assert(self@.outputs =~= old(self)@.outputs);
                }
            }
            return out;
        }
        let mut out: Vec<Op> = Vec::new();
        let taken: Option<Output> = self.outputs.remove(&id);
        assert(self@.outputs =~= old(self)@.outputs.remove(id));
        let mut output: Output = match taken {
            Some(o) => o,
            None => {
                assert(self@.outputs =~= old(self)@.outputs);
                assert(ops::acts(out@) =~= Seq::<Act>::empty());
                return out;
            },
        };
        let ghost o = output@;
        let ghost bytes = buffer@.take(result as int);
        assert(o == old(self)@.outputs[id]);
        let fresh: Vec<u8> = lines::copy_range(buffer, 0, result as usize);
        assert(fresh@ =~= bytes);
        let mut new: Vec<Vec<u8>> = Vec::new();
        lines::drain_lines(&mut output.line_buf, fresh.as_slice(), &mut new);
        assert(lines::views(new@) =~= lines::lines_of(o.tail + bytes));
        assert forall|i: int| 0 <= i < new@.len() implies (#[trigger] new@[i])@.len()
            < LOG_CAPACITY by {
            assert(lines::views(new@)[i] == new@[i]@);
        }
        let pid: i32 = output.pid;
        self.record_lines(pid, &new, &mut out);
        let locked: bool = match self.containers.get(&pid) {
            Some(c) => c.lock_count > 0,
            None => false,
        };
        assert(locked == self@.locked(pid)) by {
            assert(self@.containers.contains_key(pid) == self.containers@.contains_key(pid));
        }
        assert(locked == old(self)@.locked(pid));
        let fd: i32 = output.fd;
        let ghost view = output@;
        let ghost before = self@;
        self.outputs.insert(id, output);
        assert(self@.outputs =~= before.outputs.insert(id, view));
        assert(self@.outputs =~= old(self)@.outputs.insert(id, view));
        if !locked {
            push_op(&mut out, Op::Read { fd, len: OUTPUT_CHUNK, route: Route::Output(id) });
        }
        assert(self@ =~= old(self)@.after_output(id, bytes));
        assert(ops::acts(out@) =~= old(self)@.on_output(id, bytes));
        out
    }
}

/// A follower for whom a pipe is to be made.
pub struct FollowStart {
    pub id: u64,
    pub pid: i32,
    /// What the container has logged so far.
    pub backlog: Vec<u8>,
}

impl Board {
    /// One follower of container `pid` less waits for its backlog.
    fn unlock(&mut self, pid: i32)
        requires
            old(self).wf(),
            old(self)@.containers.contains_key(pid) ==> old(self)@.containers[pid].locks > 0,
        ensures
            final(self).wf(),
            final(self)@ == old(self)@.locks_changed(pid, -1),
    {
        match self.take_container(pid) {
            Some(mut c) => {
                c.lock_count = c.lock_count - 1;
                self.put_container(c);
                assert(self@.containers =~= old(self)@.locks_changed(pid, -1).containers);
                assert(self@ =~= old(self)@.locks_changed(pid, -1));
            },
            None => {},
        }
    }

    /// Starts following container `pid`: no more output is read until the
    /// follower has what was logged so far.
    pub fn begin_follow(&mut self, pid: i32) -> (res: Result<FollowStart, ErrorResponse>)
        requires
            old(self).wf(),
            old(self)@.next_follow_id < u64::MAX,
            old(self)@.containers.contains_key(pid) ==> old(self)@.containers[pid].locks
                < usize::MAX,
        ensures
            final(self).wf(),
            match res {
                Ok(start) => {
                    &&& old(self)@.containers.contains_key(pid)
                    &&& start.pid == pid
                    &&& start.id == old(self)@.next_follow_id
                    &&& start.backlog@ == old(self)@.containers[pid].log
                    &&& final(self)@ == (BoardState {
                        next_follow_id: (start.id + 1) as u64,
                        ..old(self)@.locks_changed(pid, 1)
                    })
                },
                Err(resp) => {
                    &&& !old(self)@.containers.contains_key(pid)
                    &&& final(self)@ == old(self)@
                    &&& !resp.ok
                    &&& resp.error@ == protocol::not_found_text(pid)
                },
            },
    {
        match self.take_container(pid) {
            Some(mut c) => {
                c.lock_count = c.lock_count + 1;
                let backlog: Vec<u8> = c.gateway.snapshot();
                self.put_container(c);
                let id: u64 = self.next_follow_id;
                self.next_follow_id = id + 1;
                assert(self@.containers =~= old(self)@.locks_changed(pid, 1).containers);
                Ok(FollowStart { id, pid, backlog })
            },
            None => Err(ErrorResponse::new(protocol::not_found(pid))),
        }
    }

    /// Goes on with a follower once its pipe was made, or could not be.
    pub fn finish_follow(&mut self, start: FollowStart, pipe: Result<FdPair, String>) -> (res:
        Result<Vec<Op>, ErrorResponse>)
        requires
            old(self).wf(),
            old(self)@.next_pipe_id < u64::MAX,
            old(self)@.containers.contains_key(start.pid) ==> old(
                self,
            )@.containers[start.pid].locks > 0,
        ensures
            final(self).wf(),
            match pipe {
                Ok(pair) => {
                    let follow = Follow { pid: start.pid, writer: pair.write, reader: pair.read };
                    let waiting = BoardState {
                        follows: old(self)@.follows.insert(start.id, follow),
                        ..old(self)@
                    };
                    &&& res is Ok
                    &&& if start.backlog@.len() > 0 {
                        &&& final(self)@ == waiting
                        &&& ops::acts(res->Ok_0@) == seq![
                            Act::Write {
                                fd: pair.write,
                                bytes: start.backlog@,
                                route: Route::Backlog(start.id),
                            },
                        ]
                    } else {
                        &&& final(self)@ == waiting.after_backlog(start.id, 0)
                        &&& waiting.answers_backlog(start.id, 0, ops::acts(res->Ok_0@))
                    }
                },
                Err(why) => {
                    &&& final(self)@ == old(self)@.locks_changed(start.pid, -1)
                    &&& res is Err
                    &&& !res->Err_0.ok
                    &&& res->Err_0.error@ == "pipe creation failed: "@ + why@
                },
            },
    {
        match pipe {
            Ok(pair) => {
                let follow = Follow { pid: start.pid, writer: pair.write, reader: pair.read };
                self.follow_pend.insert(start.id, follow);
                if start.backlog.len() == 0 {
                    return Ok(self.complete_backlog_write(start.id, 0));
                }
                let mut out: Vec<Op> = Vec::new();
                push_op(
                    &mut out,
                    Op::Write {
                        fd: pair.write,
                        bytes: start.backlog,
                        route: Route::Backlog(start.id),
                    },
                );
                assert(ops::acts(out@) =~= seq![
                    Act::Write {
                        fd: pair.write,
                        bytes: start.backlog@,
                        route: Route::Backlog(start.id),
                    },
                ]);
                Ok(out)
            },
            Err(why) => {
                self.unlock(start.pid);
                Err(ErrorResponse::new(protocol::because("pipe creation failed: ", why.as_str())))
            },
        }
    }

    /// An output of container `pid`, if there is one.
    fn output_of(&self, pid: i32) -> (found: Option<(u64, i32)>)
        ensures
            match found {
                Some(o) => self@.outputs.contains_key(o.0) && self@.outputs[o.0].pid == pid
                    && self@.outputs[o.0].fd == o.1,
                None => !self@.has_output(pid),
            },
    {
        let ghost outputs = self.outputs@;
        for entry in it: self.outputs.iter()
            invariant
                outputs == self.outputs@,
                it.seq().len() == outputs.dom().len(),
                forall|k: int|
                    0 <= k < it.seq().len() ==> outputs.contains_key(*(#[trigger] it.seq()[k]).0)
                        && outputs[*it.seq()[k].0] == *it.seq()[k].1,
                forall|id: u64| #[trigger]
                    outputs.contains_key(id) ==> it.seq().contains((&id, &outputs[id])),
                forall|k: int| 0 <= k < it.index() ==> (#[trigger] it.seq()[k]).1.pid != pid,
        {
            if entry.1.pid == pid {
                return Some((*entry.0, entry.1.fd));
            }
        }
        assert forall|id: u64| #[trigger] self@.outputs.contains_key(id) implies self@.outputs[id].pid
            != pid by {
            assert(outputs.contains_key(id));
        }
        None
    }

    /// Handles the completed write of the backlog of follower `id`.
    pub fn complete_backlog_write(&mut self, id: u64, ret: i32) -> (out: Vec<Op>)
        requires
            old(self).wf(),
            old(self)@.next_pipe_id < u64::MAX,
            old(self)@.follower_locks(id),
        ensures
            final(self).wf(),
            final(self)@ == old(self)@.after_backlog(id, ret),
            old(self)@.answers_backlog(id, ret, ops::acts(out@)),
    {
        let mut out: Vec<Op> = Vec::new();
        let ghost start = self@;
        let follow: Follow = match self.follow_pend.get(&id) {
            Some(f) => *f,
            None => {
                assert(ops::acts(out@) =~= Seq::<Act>::empty());
                return out;
            },
        };
        if ret < 0 {
            self.follow_pend.remove(&id);
            self.unlock(follow.pid);
            push_op(&mut out, Op::Close { fd: follow.writer });
            push_op(&mut out, Op::Close { fd: follow.reader });
            assert(ops::acts(out@) =~= seq![
                Act::Close { fd: follow.writer },
                Act::Close { fd: follow.reader },
            ]);
            return out;
        }
        let pipe_id: u64 = self.next_pipe_id;
        self.next_pipe_id = pipe_id + 1;
        if let Some(mut c) = self.take_container(follow.pid) {
            c.gateway.pipes.push(AsyncPipeWriter::new(pipe_id, follow.writer));
            c.lock_count = c.lock_count - 1;
            self.pipe_map.insert(pipe_id, follow.pid);
            self.put_container(c);
            assert(self@.containers =~= start.follower_joined(id).containers);
        }
        assert(self@ =~= start.follower_joined(id));
        let found: Option<(u64, i32)> = self.output_of(follow.pid);
        if let Some((o, fd)) = found {
            push_op(&mut out, Op::Read { fd, len: OUTPUT_CHUNK, route: Route::Output(o) });
        }
        push_op(&mut out, Op::PassFd { fd: follow.reader, route: Route::FollowFd(id) });
        proof {
            assert(self@.outputs == start.outputs);
            match found {
                Some((o, fd)) => {
                    assert(start.outputs.contains_key(o));
                    assert(ops::acts(out@) =~= seq![
                        start.output_read(o),
                        Act::PassFd { fd: follow.reader, route: Route::FollowFd(id) },
                    ]);
                },
                None => {
                    assert(!start.has_output(follow.pid)) by {
                        if start.has_output(follow.pid) {
                            let o = choose|o: u64| #[trigger]
                                start.outputs.contains_key(o) && start.outputs[o].pid
                                    == follow.pid;
                            assert(self@.outputs.contains_key(o));
                        }
                    }
                    assert(ops::acts(out@) =~= seq![
                        Act::PassFd { fd: follow.reader, route: Route::FollowFd(id) },
                    ]);
                },
            }
        }
        out
    }

    /// Handles the completed message that handed follower `id` its pipe: the
    /// end that was handed over is closed here.
    pub fn complete_follow_fd_pass(&mut self, id: u64) -> (out: Vec<Op>)
        requires
            old(self).wf(),
        ensures
            final(self).wf(),
            old(self)@.fd_passed(id, final(self)@, ops::acts(out@)),
    {
        let mut out: Vec<Op> = Vec::new();
        let gone: Option<Follow> = self.follow_pend.remove(&id);
        if let Some(follow) = gone {
            push_op(&mut out, Op::Close { fd: follow.reader });
        }
        assert(ops::acts(out@) =~= if old(self)@.follows.contains_key(id) {
            seq![Act::Close { fd: old(self)@.follows[id].reader }]
        } else {
            Seq::empty()
        });
        out
    }

    /// Handles the completed write of a line to pipe `pipe_id`. After an error
    /// the pipe is closed and forgotten.
    pub fn complete_pipe_write(&mut self, pipe_id: u64, ret: i32) -> (out: Vec<Op>)
        requires
            old(self).wf(),
        ensures
            final(self).wf(),
            old(self)@.pipe_written(pipe_id, ret, final(self)@, ops::acts(out@)),
    {
        let mut out: Vec<Op> = Vec::new();
        let pid: i32 = match self.pipe_map.get(&pipe_id) {
            Some(pid) => *pid,
            None => {
                assert(ops::acts(out@) =~= Seq::<Act>::empty());
                return out;
            },
        };
        match self.take_container(pid) {
            Some(mut c) => {
                let ghost before = c@;
                let closed: Option<i32> = c.gateway.complete_write(pipe_id, ret >= 0);
                self.put_container(c);
                assert(self@.containers =~= old(self)@.containers.insert(
                    pid,
                    Watched {
                        pipes: log::pipes_completed(before.pipes, pipe_id, ret >= 0),
                        ..before
                    },
                ));
                if let Some(fd) = closed {
                    self.pipe_map.remove(&pipe_id);
                    push_op(&mut out, Op::Close { fd });
                    assert(ops::acts(out@) =~= seq![Act::Close { fd }]);
                } else {
                    assert(ops::acts(out@) =~= Seq::<Act>::empty());
                }
            },
            None => {
                self.pipe_map.remove(&pipe_id);
                assert(ops::acts(out@) =~= Seq::<Act>::empty());
            },
        }
        out
    }
}

impl Board {
    /// All containers, in no particular order.
    pub fn handle_list(&self) -> (rows: Vec<ContainerRow>)
        requires
            self.wf(),
        ensures
            lists(rows@, self@.containers),
    {
        let mut rows: Vec<ContainerRow> = Vec::new();
        let ghost infos = self.containers@;
        assert(self@.containers.dom() =~= infos.dom());
        for entry in it: self.containers.iter()
            invariant
                infos == self.containers@,
                self.wf(),
                self@.containers.dom() == infos.dom(),
                it.seq().no_duplicates(),
                it.seq().len() == infos.dom().len(),
                forall|k: int|
                    0 <= k < it.seq().len() ==> infos.contains_key(*(#[trigger] it.seq()[k]).0)
                        && infos[*it.seq()[k].0] == *it.seq()[k].1,
                rows@.len() == it.index(),
                forall|i: int|
                    0 <= i < rows@.len() ==> {
                        let row = #[trigger] rows@[i];
                        &&& row.pid == *it.seq()[i].0
                        &&& self@.containers.contains_key(row.pid)
                        &&& row.command@ == self@.containers[row.pid].command
                        &&& row.start_time == self@.containers[row.pid].start_time
                    },
        {
            assert(infos.contains_key(*entry.0));
            rows.push(
                ContainerRow {
                    pid: *entry.0,
                    command: entry.1.command.clone(),
                    start_time: entry.1.start_time,
                },
            );
        }
        assert forall|i: int, j: int| 0 <= i < j < rows@.len() implies (#[trigger] rows@[i]).pid
            != (#[trigger] rows@[j]).pid by {}
        rows
    }

    /// Whether container `pid` may be killed: it must be there. If it is not,
    /// the answer comes back.
    pub fn handle_kill(&self, pid: i32) -> (res: Result<(), KillResponse>)
        requires
            self.wf(),
        ensures
            match res {
                Ok(_) => self@.containers.contains_key(pid),
                Err(resp) => {
                    &&& !self@.containers.contains_key(pid)
                    &&& !resp.ok
                    &&& resp.error matches Some(text) && text@ == protocol::not_found_text(pid)
                },
            },
    {
        assert(self@.containers.contains_key(pid) == self.containers@.contains_key(pid));
        if self.containers.contains_key(&pid) {
            Ok(())
        } else {
            Err(KillResponse { ok: false, error: Some(protocol::not_found(pid)) })
        }
    }

    /// The log of `pid` as lines of text.
    pub fn handle_logs(&self, pid: i32) -> (res: Result<Vec<String>, ErrorResponse>)
        requires
            self.wf(),
        ensures
            match res {
                Ok(out) => self@.stored_log(pid) matches Some(log) && requests::decoded(out@, log),
                Err(resp) => {
                    &&& self@.stored_log(pid) is None
                    &&& !resp.ok
                    &&& resp.error@ == protocol::not_found_text(pid)
                },
            },
    {
        assert(self@.containers.contains_key(pid) == self.containers@.contains_key(pid));
        assert(self@.graveyard.contains_key(pid) == self.log_graveyard@.contains_key(pid));
        match self.containers.get(&pid) {
            Some(c) => Ok(c.gateway.collect_lines()),
            None => match self.log_graveyard.get(&pid) {
                Some(cache) => Ok(cache.collect_lines()),
                None => Err(ErrorResponse::new(protocol::not_found(pid))),
            },
        }
    }

    /// Forgets every pipe of container `pid`.
    fn disown_pipes(&mut self, pid: i32)
        requires
            old(self).wf(),
        ensures
            final(self).wf(),
            final(self)@ == old(self)@.pipes_disowned(pid),
    {
        let mut owned: Vec<u64> = Vec::new();
        let ghost map = self.pipe_map@;
        for entry in it: self.pipe_map.iter()
            invariant
                map == self.pipe_map@,
                *self == *old(self),
                it.seq().len() == map.dom().len(),
                forall|k: int|
                    0 <= k < it.seq().len() ==> map.contains_key(*(#[trigger] it.seq()[k]).0)
                        && map[*it.seq()[k].0] == *it.seq()[k].1,
                forall|id: u64| #[trigger]
                    map.contains_key(id) ==> it.seq().contains((&id, &map[id])),
                forall|k: int|
                    0 <= k < it.index() && *(#[trigger] it.seq()[k]).1 == pid ==> owned@.contains(
                        *it.seq()[k].0,
                    ),
                forall|k: int|
                    0 <= k < owned@.len() ==> map.contains_key(#[trigger] owned@[k])
                        && map[owned@[k]] == pid,
        {
            let ghost before = owned@;
            if *entry.1 == pid {
                owned.push(*entry.0);
                assert(owned@.last() == *entry.0);
                assert forall|id: u64| before.contains(id) implies owned@.contains(id) by {
                    let k = choose|k: int| 0 <= k < before.len() && before[k] == id;
                    assert(owned@[k] == id);
                }
            }
        }
        assert forall|id: u64| map.contains_key(id) && map[id] == pid implies owned@.contains(
            id,
        ) by {
            assert(map.contains_key(id));
        }
        let mut i: usize = 0;
        while i < owned.len()
            invariant
                i <= owned@.len(),
                map == old(self)@.pipe_owner,
                self.wf(),
                self@ == (BoardState { pipe_owner: self@.pipe_owner, ..old(self)@ }),
                forall|id: u64|
                    #![trigger self@.pipe_owner.contains_key(id)]
                    self@.pipe_owner.contains_key(id) <==> map.contains_key(id)
                        && !owned@.take(i as int).contains(id),
                forall|id: u64| #[trigger]
                    self@.pipe_owner.contains_key(id) ==> self@.pipe_owner[id] == map[id],
            decreases owned@.len() - i,
        {
            let ghost before = self@.pipe_owner;
            let id: u64 = owned[i];
            self.pipe_map.remove(&id);
            proof {
                let next = owned@.take(i + 1);
                assert(next =~= owned@.take(i as int).push(id));
                assert forall|k: u64| next.contains(k) <==> owned@.take(i as int).contains(k) || k
                    == id by {
                    if owned@.take(i as int).contains(k) {
                        let at = choose|at: int|
                            0 <= at < owned@.take(i as int).len() && owned@.take(i as int)[at] == k;
                        assert(next[at] == k);
                    }
                    assert(next[i as int] == id);
                }
                assert(self@.pipe_owner =~= before.remove(id));
            }
            i = i + 1;
        }
        proof {
            assert(owned@.take(i as int) =~= owned@);
            assert forall|id: u64| owned@.contains(id) implies map[id] == pid by {
                let k = choose|k: int| 0 <= k < owned@.len() && owned@[k] == id;
                assert(map[owned@[k]] == pid);
            }
            assert(self@.pipe_owner =~= old(self)@.pipes_disowned(pid).pipe_owner);
        }
    }

    /// Takes out container `pid`, if it is there, and keeps only its log. Its
    /// pipes are closed; when `attached` is false they are forgotten too. The
    /// overlay to clean up comes back.
    pub fn remove_container(&mut self, pid: i32, attached: bool) -> (out: (
        Vec<Op>,
        Option<String>,
    ))
        requires
            old(self).wf(),
        ensures
            final(self).wf(),
            if old(self)@.containers.contains_key(pid) {
                let c = old(self)@.containers[pid];
                &&& final(self)@ == if attached {
                    old(self)@.buried(pid)
                } else {
                    old(self)@.buried(pid).pipes_disowned(pid)
                }
                &&& ops::acts(out.0@) == ops::closes(log::open_fds(c.pipes))
                &&& daemon::text_of(out.1) == if c.save {
                    None
                } else {
                    c.overlay_dir
                }
            } else {
                &&& final(self)@ == old(self)@
                &&& ops::acts(out.0@) == Seq::<Act>::empty()
                &&& out.1 is None
            },
    {
        let mut out: Vec<Op> = Vec::new();
        match self.take_container(pid) {
            Some(c) => {
                let mut gateway: LogGateway = c.gateway;
                let fds: Vec<i32> = gateway.close_all_pipes();
                push_closes(&mut out, &fds);
                assert(ops::acts(out@) =~= ops::closes(fds@));
                self.log_graveyard.insert(pid, gateway.cache);
                assert(self@.graveyard =~= old(self)@.buried(pid).graveyard);
                assert(self@ =~= old(self)@.buried(pid));
                if !attached {
                    self.disown_pipes(pid);
                }
                let cleanup: Option<String> = if c.save {
                    None
                } else {
                    c.overlay_dir
                };
                (out, cleanup)
            },
            None => {
                assert(ops::acts(out@) =~= Seq::<Act>::empty());
                (out, None)
            },
        }
    }
}

/// While a follower waits for its backlog, output that comes in starts no
/// further read, so nothing can be read that the follower would miss.
pub proof fn locked_output_is_not_read_on(s: BoardState, id: u64, bytes: Seq<u8>)
    requires
        s.locked(s.outputs[id].pid),
    ensures
        forall|i: int|
            0 <= i < s.on_output(id, bytes).len() ==> !((#[trigger] s.on_output(id, bytes)[i])
                is Read),
{
}

/// A follower that was served leaves no lock behind: once its backlog was
/// written, or could not be, the container is locked as often as before.
pub proof fn served_follower_unlocks(s: BoardState, pid: i32, id: u64, f: Follow, ret: i32)
    requires
        s.containers.contains_key(pid),
        s.containers[pid].locks < usize::MAX,
        f.pid == pid,
    ensures
        ({
            let started = s.locks_changed(pid, 1);
            let waiting = BoardState { follows: s.follows.insert(id, f), ..started };
            let served = waiting.after_backlog(id, ret);
            &&& started.locked(pid)
            &&& served.containers.contains_key(pid)
            &&& served.containers[pid].locks == s.containers[pid].locks
            &&& served.containers[pid].log == s.containers[pid].log
        }),
{
}

/// A follower misses nothing and sees nothing twice: its backlog is the log at
/// the moment it asked, and once it has its pipe, the next line goes to that
/// pipe.
pub proof fn follower_gets_the_next_line(s: BoardState, id: u64, ret: i32, line: Seq<u8>)
    requires
        ret >= 0,
        s.follows.contains_key(id),
        s.containers.contains_key(s.follows[id].pid),
    ensures
        ({
            let f = s.follows[id];
            let served = s.after_backlog(id, ret);
            served.on_lines(f.pid, seq![line]).contains(
                Act::Write {
                    fd: f.writer,
                    bytes: line.push(NEWLINE),
                    route: Route::PipeWrite(s.next_pipe_id),
                },
            )
        }),
{
    let f = s.follows[id];
    let served = s.after_backlog(id, ret);
    let pipes = served.containers[f.pid].pipes;
    let targets = requests::idle_targets(pipes);
    assert(pipes.last() == (AsyncPipeWriter {
        id: s.next_pipe_id,
        fd: f.writer,
        in_flight: false,
    }));
    assert(targets.last() == (s.next_pipe_id, f.writer));
    let writes = line_writes(pipes, line);
    assert(writes[targets.len() - 1] == (Act::Write {
        fd: f.writer,
        bytes: line.push(NEWLINE),
        route: Route::PipeWrite(s.next_pipe_id),
    }));
}

/// A container's log outlives it: whoever asks for the log of any pid gets the
/// same before and after the container goes, however it ran.
pub proof fn log_outlives_container(s: BoardState, pid: i32, asked: i32)
    requires
        s.containers.contains_key(pid),
    ensures
        s.buried(pid).stored_log(asked) == s.stored_log(asked),
        s.buried(pid).pipes_disowned(pid).stored_log(asked) == s.stored_log(asked),
{
}

/// Lines that come out after a container went are added to the log that it
/// left.
pub proof fn late_lines_are_kept(s: BoardState, pid: i32, lines: Seq<Seq<u8>>)
    requires
        s.containers.contains_key(pid),
    ensures
        s.buried(pid).with_lines(pid, lines).stored_log(pid) == Some(
            logged(s.containers[pid].log, lines),
        ),
        s.buried(pid).on_lines(pid, lines) == Seq::<Act>::empty(),
{
}

/// Lines are logged one after the other: logging some and then more is the same
/// as logging all of them, and a line that fits into 65536 bytes beside what is
/// there is added at the end.
pub proof fn lines_are_logged_in_order(log: Seq<u8>, a: Seq<Seq<u8>>, b: Seq<Seq<u8>>)
    ensures
        logged(log, a + b) == logged(logged(log, a), b),
        logged(log, Seq::<Seq<u8>>::empty()) == log,
        a.len() == 1 && log.len() + a[0].len() + 1 <= 65536 ==> logged(log, a) == log + a[0]
            + seq![10u8],
    decreases b.len(),
{
    if a.len() == 1 && log.len() + a[0].len() + 1 <= 65536 {
        reveal_with_fuel(logged, 2);
        assert(a.drop_last() =~= Seq::empty());
        log::push_with_room_appends(log, LOG_CAPACITY as int, a[0]);
        assert(log + a[0].push(NEWLINE) =~= log + a[0] + seq![10u8]);
    }
    if b.len() == 0 {
        assert(a + b =~= a);
    } else {
        lines_are_logged_in_order(log, a, b.drop_last());
        assert((a + b).drop_last() =~= a + b.drop_last());
        assert((a + b).last() == b.last());
    }
}

/// A line goes, with its newline, to each follower that has no write
/// outstanding, and to no other.
pub proof fn line_is_written_to_idle_followers(
    pipes: Seq<AsyncPipeWriter>,
    line: Seq<u8>,
    id: u64,
    fd: i32,
)
    ensures
        line_writes(pipes, line).contains(
            Act::Write { fd, bytes: line + seq![10u8], route: Route::PipeWrite(id) },
        ) <==> exists|i: int|
            0 <= i < pipes.len() && (#[trigger] pipes[i]).id == id && pipes[i].fd == fd
                && !pipes[i].in_flight,
        forall|k: int|
            0 <= k < line_writes(pipes, line).len() ==> (#[trigger] line_writes(pipes, line)[k])
                is Write,
{
    let act = Act::Write { fd, bytes: line + seq![10u8], route: Route::PipeWrite(id) };
    let targets = requests::idle_targets(pipes);
    let writes = line_writes(pipes, line);
    assert(line + seq![10u8] =~= line.push(NEWLINE));
    requests::line_goes_to_idle_followers(pipes, id, fd);
    if writes.contains(act) {
        let k = choose|k: int| 0 <= k < writes.len() && writes[k] == act;
        assert(targets[k] == (id, fd));
    }
    if targets.contains((id, fd)) {
        let k = choose|k: int| 0 <= k < targets.len() && targets[k] == (id, fd);
        assert(writes[k] == act);
    }
}

/// New lines concern one container: its log gets all of them, its followers are
/// being written then, and nothing else of it or of any other changes. Without
/// lines nothing happens at all.
pub proof fn lines_concern_one_container(
    s: BoardState,
    pid: i32,
    lines: Seq<Seq<u8>>,
    other: i32,
)
    requires
        other != pid,
    ensures
        ({
            let after = s.with_lines(pid, lines);
            &&& lines.len() == 0 ==> after == s && s.on_lines(pid, lines).len() == 0
            &&& lines.len() > 0 && s.containers.contains_key(pid) ==> {
                &&& after.containers[pid] == (Watched {
                    log: logged(s.containers[pid].log, lines),
                    pipes: after.containers[pid].pipes,
                    ..s.containers[pid]
                })
                &&& after.containers[pid].pipes.len() == s.containers[pid].pipes.len()
                &&& forall|i: int|
                    0 <= i < after.containers[pid].pipes.len() ==> (
                    #[trigger] after.containers[pid].pipes[i]).in_flight
                &&& s.on_lines(pid, lines) == line_writes(s.containers[pid].pipes, lines[0])
            }
            &&& !s.containers.contains_key(pid) ==> s.on_lines(pid, lines).len() == 0
            &&& !s.containers.contains_key(pid) && !s.graveyard.contains_key(pid) ==> after == s
            &&& after.containers.dom() == s.containers.dom()
            &&& after.containers[other] == s.containers[other]
            &&& after.stored_log(other) == s.stored_log(other)
            &&& after.outputs == s.outputs && after.follows == s.follows && after.pipe_owner
                == s.pipe_owner
        }),
{
    assert(s.with_lines(pid, lines).containers.dom() =~= s.containers.dom());
}

/// It does not matter how the output of a container is cut into reads: the same
/// bytes in two reads leave the same log and the same unfinished line as in
/// one.
pub proof fn reads_leave_the_same_log(s: BoardState, id: u64, a: Seq<u8>, b: Seq<u8>)
    requires
        s.outputs.contains_key(id),
    ensures
        ({
            let pid = s.outputs[id].pid;
            let once = s.after_output(id, a + b);
            let twice = s.after_output(id, a).after_output(id, b);
            &&& once.stored_log(pid) == twice.stored_log(pid)
            &&& once.outputs[id].tail == twice.outputs[id].tail
            &&& once.outputs[id].fd == s.outputs[id].fd && once.outputs[id].pid == pid
        }),
{
    let o = s.outputs[id];
    lines::lines_are_independent_of_chunking(o.tail + a, b);
    assert(o.tail + (a + b) =~= (o.tail + a) + b);
    let first = lines::lines_of(o.tail + a);
    let second = lines::lines_of(lines::tail_of(o.tail + a) + b);
    if let Some(log) = s.stored_log(o.pid) {
        lines_are_logged_in_order(log, first, second);
        if first.len() == 0 {
            assert(first + second =~= second);
        }
        if second.len() == 0 {
            assert(first + second =~= first);
        }
    }
}

/// Output is taken line by line: a whole line that comes in when nothing is
/// unfinished is logged and handed on, and what follows the last newline waits.
pub proof fn output_line_is_logged(s: BoardState, id: u64, line: Seq<u8>)
    requires
        s.outputs.contains_key(id),
        s.outputs[id].tail.len() == 0,
        forall|i: int| 0 <= i < line.len() ==> line[i] != 10u8,
    ensures
        ({
            let pid = s.outputs[id].pid;
            let whole = s.after_output(id, line + seq![10u8]);
            let part = s.after_output(id, line);
            &&& whole.outputs[id].tail.len() == 0
            &&& s.stored_log(pid) matches Some(log) ==> whole.stored_log(pid) == Some(
                logged(log, seq![line]),
            )
            &&& s.on_output(id, line + seq![10u8]).take(
                s.on_lines(pid, seq![line]).len() as int,
            ) == s.on_lines(pid, seq![line])
            &&& part.outputs[id].tail == line
            &&& part.stored_log(pid) == s.stored_log(pid)
        }),
{
    let o = s.outputs[id];
    let empty = Seq::<u8>::empty();
    assert(o.tail + line =~= line);
    assert(o.tail + (line + seq![10u8]) =~= line + seq![10u8] + empty);
    lines::lines_end_at_newlines(line, empty);
    lines::lines_end_at_newlines(empty, empty);
    assert(seq![line] + lines::lines_of(empty) =~= seq![line]);
    let on = s.on_output(id, line + seq![10u8]);
    assert(on.take(s.on_lines(o.pid, seq![line]).len() as int) =~= s.on_lines(o.pid, seq![line]));
}

/// The output of a container is read on as long as no follower waits for its
/// backlog: then exactly one more read of up to 4096 bytes is started, on the
/// same descriptor.
pub proof fn output_is_read_on(s: BoardState, id: u64, bytes: Seq<u8>)
    ensures
        ({
            let acts = s.on_output(id, bytes);
            let pid = s.outputs[id].pid;
            let more = Act::Read { fd: s.outputs[id].fd, len: 4096, route: Route::Output(id) };
            let held = s.containers.contains_key(pid) && s.containers[pid].locks > 0;
            &&& s.output_read(id) == more
            &&& !held ==> acts.len() > 0 && acts.last() == more
            &&& acts.contains(more) <==> !held
        }),
{
    let pid = s.outputs[id].pid;
    let acts = s.on_output(id, bytes);
    let lines = lines::lines_of(s.outputs[id].tail + bytes);
    let more = Act::Read { fd: s.outputs[id].fd, len: 4096, route: Route::Output(id) };
    if lines.len() > 0 && s.containers.contains_key(pid) {
        line_is_written_to_idle_followers(s.containers[pid].pipes, lines[0], 0, 0);
    }
    if !s.locked(pid) {
        assert(acts[acts.len() - 1] == more);
    } else if acts.contains(more) {
        let k = choose|k: int| 0 <= k < acts.len() && acts[k] == more;
        assert(acts[k] is Write);
    }
}

/// An output that ended, or failed, is closed and forgotten; its container
/// stays.
pub proof fn ended_output_is_closed(
    s: BoardState,
    id: u64,
    result: i32,
    buffer: Seq<u8>,
    after: BoardState,
    acts: Seq<Act>,
    other: u64,
)
    requires
        s.outputs.contains_key(id),
        result <= 0,
        s.output_done(id, result, buffer, after, acts),
        other != id,
    ensures
        acts == seq![Act::Close { fd: s.outputs[id].fd }],
        !after.outputs.contains_key(id),
        after.outputs.contains_key(other) == s.outputs.contains_key(other),
        after.containers == s.containers,
        after.graveyard == s.graveyard,
{
}

/// A follower that has its backlog gets the reading end of its pipe, and the
/// container's output is read again. One whose backlog could not be written
/// gets nothing: both ends are closed and it is forgotten.
pub proof fn backlog_is_answered(s: BoardState, id: u64, ret: i32, out: Seq<Act>)
    requires
        s.answers_backlog(id, ret, out),
    ensures
        !s.follows.contains_key(id) ==> out.len() == 0 && s.after_backlog(id, ret) == s,
        s.follows.contains_key(id) && ret < 0 ==> {
            &&& out == seq![
                Act::Close { fd: s.follows[id].writer },
                Act::Close { fd: s.follows[id].reader },
            ]
            &&& !s.after_backlog(id, ret).follows.contains_key(id)
        },
        s.follows.contains_key(id) && ret >= 0 ==> {
            &&& out.last() == (Act::PassFd {
                fd: s.follows[id].reader,
                route: Route::FollowFd(id),
            })
            &&& out.len() == if exists|o: u64| #[trigger]
                s.outputs.contains_key(o) && s.outputs[o].pid == s.follows[id].pid {
                2int
            } else {
                1int
            }
            &&& out.len() == 2 ==> out[0] is Read
            &&& s.after_backlog(id, ret).follows.contains_key(id)
        },
{
}

/// A follower that was served belongs to its container from then on: its
/// writing end is the last of the container's pipes, under a number that was
/// not used before, and is found again by that number.
pub proof fn served_follower_joins(s: BoardState, id: u64, ret: i32)
    requires
        s.follows.contains_key(id),
        s.containers.contains_key(s.follows[id].pid),
        s.containers[s.follows[id].pid].locks > 0,
        s.next_pipe_id < u64::MAX,
        ret >= 0,
    ensures
        ({
            let f = s.follows[id];
            let after = s.after_backlog(id, ret);
            let pipes = after.containers[f.pid].pipes;
            &&& pipes.drop_last() == s.containers[f.pid].pipes
            &&& pipes.last().fd == f.writer && !pipes.last().in_flight && pipes.last().id
                == s.next_pipe_id
            &&& after.pipe_owner.contains_key(s.next_pipe_id)
            &&& after.pipe_owner[s.next_pipe_id] == f.pid
            &&& after.next_pipe_id == s.next_pipe_id + 1
            &&& after.containers[f.pid].locks == s.containers[f.pid].locks - 1
            &&& after.containers[f.pid] == (Watched {
                pipes,
                locks: after.containers[f.pid].locks,
                ..s.containers[f.pid]
            })
            &&& after.outputs == s.outputs && after.graveyard == s.graveyard && after.follows
                == s.follows
        }),
{
    let f = s.follows[id];
    let after = s.after_backlog(id, ret);
    assert(after.containers[f.pid].pipes.drop_last() =~= s.containers[f.pid].pipes);
}

/// Once a follower has its end of the pipe, that end is closed here and the
/// follower no longer waits.
pub proof fn passed_end_is_closed(s: BoardState, id: u64, after: BoardState, acts: Seq<Act>)
    requires
        s.fd_passed(id, after, acts),
    ensures
        !after.follows.contains_key(id),
        s.follows.contains_key(id) ==> acts == seq![Act::Close { fd: s.follows[id].reader }],
        !s.follows.contains_key(id) ==> acts.len() == 0,
        after.containers == s.containers && after.outputs == s.outputs && after.pipe_owner
            == s.pipe_owner,
{
}

/// The end of a write to a follower concerns that follower. After a failure its
/// pipe is closed and forgotten; else it can be written again. Its container
/// stays, and so do the other followers.
pub proof fn follower_write_ends(
    s: BoardState,
    pipe_id: u64,
    ret: i32,
    after: BoardState,
    acts: Seq<Act>,
    i: int,
)
    requires
        s.pipe_written(pipe_id, ret, after, acts),
        s.pipe_owner.contains_key(pipe_id),
        s.containers.contains_key(s.pipe_owner[pipe_id]),
        daemon::distinct_ids(s.containers[s.pipe_owner[pipe_id]].pipes),
        0 <= i < s.containers[s.pipe_owner[pipe_id]].pipes.len(),
    ensures
        ({
            let pid = s.pipe_owner[pipe_id];
            let pipes = s.containers[pid].pipes;
            let left = after.containers[pid].pipes;
            &&& after.containers.contains_key(pid)
            &&& after.containers[pid] == (Watched { pipes: left, ..s.containers[pid] })
            &&& after.outputs == s.outputs && after.follows == s.follows && after.graveyard
                == s.graveyard
            &&& pipes[i].id == pipe_id && ret >= 0 ==> acts.len() == 0 && left.len() == pipes.len()
                && !left[i].in_flight && left[i].fd == pipes[i].fd
                && after.pipe_owner.contains_key(pipe_id)
            &&& pipes[i].id == pipe_id && ret < 0 ==> acts == seq![Act::Close { fd: pipes[i].fd }]
                && left.len() == pipes.len() - 1 && !after.pipe_owner.contains_key(pipe_id)
            &&& pipes[i].id != pipe_id ==> left.contains(pipes[i])
        }),
{
    let pid = s.pipe_owner[pipe_id];
    let pipes = s.containers[pid].pipes;
    log::ended_write_concerns_one_pipe(pipes, pipe_id, ret >= 0, i);
    log::lemma_pipe_index(pipes, pipe_id);
    let at = log::pipe_index(pipes, pipe_id);
    if pipes[i].id == pipe_id {
        assert(at == i);
    } else if ret >= 0 {
        assert(log::pipes_completed(pipes, pipe_id, true)[i] == pipes[i]);
    }
}

/// A listing names every container that runs, with its command and the time it
/// started, and no other.
pub proof fn board_lists_every_container(
    rows: Seq<ContainerRow>,
    containers: Map<i32, Watched>,
    pid: i32,
)
    requires
        containers.dom().finite(),
        lists(rows, containers),
    ensures
        containers.contains_key(pid) <==> exists|i: int|
            0 <= i < rows.len() && (#[trigger] rows[i]).pid == pid && rows[i].command@
                == containers[pid].command && rows[i].start_time == containers[pid].start_time,
{
    let pids = rows.map_values(|r: ContainerRow| r.pid);
    assert(pids.no_duplicates());
    pids.unique_seq_to_set();
    let named = pids.to_set();
    assert forall|p: i32| named.contains(p) implies containers.dom().contains(p) by {
        let i = choose|i: int| 0 <= i < pids.len() && pids[i] == p;
        assert(rows[i].pid == p);
    }
    assert(named.subset_of(containers.dom()));
    assert(named.len() == containers.dom().len());
    vstd::set_lib::lemma_subset_equality(named, containers.dom());
    if containers.contains_key(pid) {
        assert(named.contains(pid));
        let i = choose|i: int| 0 <= i < pids.len() && pids[i] == pid;
        assert(rows[i].pid == pid);
    }
}

/// A container that goes is gone alone, and its log stays. When its followers
/// are forgotten with it, exactly its own pipes are.
pub proof fn container_goes_alone(s: BoardState, pid: i32, other: i32, pipe: u64)
    requires
        s.containers.contains_key(pid),
        other != pid,
    ensures
        ({
            let gone = s.buried(pid);
            let bare = gone.pipes_disowned(pid);
            &&& !gone.containers.contains_key(pid) && !bare.containers.contains_key(pid)
            &&& gone.containers.contains_key(other) == s.containers.contains_key(other)
            &&& gone.containers[other] == s.containers[other]
            &&& gone.graveyard.contains_key(pid) && gone.graveyard[pid] == s.containers[pid].log
            &&& gone.outputs == s.outputs && gone.follows == s.follows && gone.pipe_owner
                == s.pipe_owner
            &&& bare.pipe_owner.contains_key(pipe) <==> s.pipe_owner.contains_key(pipe)
                && s.pipe_owner[pipe] != pid
            &&& bare.pipe_owner.contains_key(pipe) ==> bare.pipe_owner[pipe] == s.pipe_owner[pipe]
        }),
{
}

/// A board begins with nothing on it, and numbers outputs from 2 on.
pub proof fn board_begins_empty(pid: i32, id: u64)
    ensures
        ({
            let s = BoardState::idle();
            &&& !s.containers.contains_key(pid) && s.stored_log(pid) is None
            &&& !s.outputs.contains_key(id) && !s.follows.contains_key(id)
                && !s.pipe_owner.contains_key(id)
            &&& s.next_output_id == 2 && s.next_follow_id == 0 && s.next_pipe_id == 0
        }),
{
}

/// A completion for what is no longer there changes nothing and calls for
/// nothing: an output that was closed, or a pipe that was forgotten. A pipe
/// whose container is gone is forgotten then.
pub proof fn unknown_numbers_are_left_alone(
    s: BoardState,
    id: u64,
    ret: i32,
    buffer: Seq<u8>,
    after: BoardState,
    acts: Seq<Act>,
)
    ensures
        s.output_done(id, ret, buffer, after, acts) && !s.outputs.contains_key(id) ==> after == s
            && acts.len() == 0,
        s.pipe_written(id, ret, after, acts) && !s.pipe_owner.contains_key(id) ==> after == s
            && acts.len() == 0,
        s.pipe_written(id, ret, after, acts) && s.pipe_owner.contains_key(id)
            && !s.containers.contains_key(s.pipe_owner[id]) ==> !after.pipe_owner.contains_key(id)
            && acts.len() == 0 && after.containers == s.containers,
{
}

/// A follower whose container went while its backlog was written still gets
/// its end of the pipe, but joins no container.
pub proof fn follower_of_gone_container_joins_nothing(s: BoardState, id: u64, ret: i32)
    requires
        s.follows.contains_key(id),
        !s.containers.contains_key(s.follows[id].pid),
        s.next_pipe_id < u64::MAX,
    ensures
        ({
            let after = s.after_backlog(id, ret);
            &&& after.containers == s.containers
            &&& after.pipe_owner == s.pipe_owner
            &&& ret >= 0 ==> after.follows.contains_key(id) && after.next_pipe_id == s.next_pipe_id
                + 1
            &&& ret < 0 ==> !after.follows.contains_key(id) && after.next_pipe_id
                == s.next_pipe_id
        }),
{
}

/// Locking and unlocking a container changes the number of followers that it
/// waits for, and nothing else of it or of any other.
pub proof fn lock_concerns_one_container(s: BoardState, pid: i32, other: i32)
    requires
        other != pid,
    ensures
        ({
            let up = s.locks_changed(pid, 1);
            &&& !s.containers.contains_key(pid) ==> up == s
            &&& s.containers.contains_key(pid) && s.containers[pid].locks < usize::MAX ==> {
                &&& up.containers[pid] == (Watched {
                    locks: (s.containers[pid].locks + 1) as usize,
                    ..s.containers[pid]
                })
                &&& up.locked(pid)
                &&& up.locks_changed(pid, -1) == s
            }
            &&& up.containers[other] == s.containers[other]
            &&& s.locked(pid) <==> s.containers.contains_key(pid) && s.containers[pid].locks > 0
        }),
{
    let up = s.locks_changed(pid, 1);
    if s.containers.contains_key(pid) && s.containers[pid].locks < usize::MAX {
        assert(up.locks_changed(pid, -1).containers =~= s.containers);
    }
}

/// No log outgrows 65536 bytes, however many lines come.
pub proof fn logged_lines_stay_within_capacity(log: Seq<u8>, lines: Seq<Seq<u8>>)
    requires
        lines::tail_of(log) == Seq::<u8>::empty(),
        log.len() <= 65536,
        forall|i: int| 0 <= i < lines.len() ==> (#[trigger] lines[i]).len() < 65536,
    ensures
        logged(log, lines).len() <= 65536,
        lines::tail_of(logged(log, lines)) == Seq::<u8>::empty(),
        lines.len() > 0 ==> logged(log, lines).skip(
            logged(log, lines).len() - lines.last().len() - 1,
        ) == lines.last() + seq![10u8],
    decreases lines.len(),
{
    if lines.len() > 0 {
        let rest = lines.drop_last();
        assert forall|i: int| 0 <= i < rest.len() implies (#[trigger] rest[i]).len() < 65536 by {
            assert(rest[i] == lines[i]);
        }
        logged_lines_stay_within_capacity(log, rest);
        let before = logged(log, rest);
        let line = lines.last();
        assert(line == lines[lines.len() - 1]);
        log::pushed_text_is_at_the_end(before, LOG_CAPACITY as int, line);
        let after = logged(log, lines);
        assert(after.last() == 10u8);
        log::lemma_complete(after);
        assert(after.skip(after.len() - line.len() - 1) =~= line + seq![10u8]);
    }
}

} // verus!
