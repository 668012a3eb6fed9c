//! Datagram requests, log followers and the drains of container output.

use vstd::prelude::*;
use vstd::std_specs::hash::*;

use crate::daemon;
use crate::daemon::DaemonState;
use crate::lines;
use crate::log;
use crate::log::AsyncPipeWriter;
use crate::log::LOG_CAPACITY;
use crate::protocol;
use crate::protocol::ErrorResponse;
use crate::protocol::KillResponse;
use crate::protocol::Request;
use crate::protocol::RunArgs;
use crate::sys::FdPair;
use crate::text;

verus! {

broadcast use vstd::std_specs::hash::group_hash_axioms;

/// The largest part of a line that goes into one write.
pub const WRITE_CHUNK_PAYLOAD: usize = 65535;

/// One running container in a listing.
pub struct ContainerRow {
    pub pid: i32,
    pub command: String,
    pub start_time: u64,
}

/// What a datagram request calls for.
pub enum DatagramStep {
    /// Start a detached container.
    Run(RunArgs),
    /// Answer with these containers.
    List(Vec<ContainerRow>),
    /// Kill this container, then answer with the outcome.
    Kill { pid: i32 },
    /// Answer a kill request that names no container.
    KillRefused(KillResponse),
    /// Answer with these log lines.
    Logs(Vec<String>),
    /// Write this backlog to a fresh pipe and pass its read end to the client.
    Follow { pid: i32, backlog: Vec<u8> },
    /// Answer with an error.
    Refused(ErrorResponse),
}

/// Whether `rows` lists every container once and nothing else.
pub open spec fn lists(rows: Seq<ContainerRow>, containers: Map<i32, daemon::Container>) -> bool {
    &&& rows.len() == containers.dom().len()
    &&& forall|i: int|
        0 <= i < rows.len() ==> {
            let row = #[trigger] rows[i];
            &&& containers.contains_key(row.pid)
            &&& row.command@ == containers[row.pid].command
            &&& row.start_time == containers[row.pid].start_time
        }
    &&& forall|i: int, j: int|
        0 <= i < j < rows.len() ==> (#[trigger] rows[i]).pid != (#[trigger] rows[j]).pid
}

/// Whether `out` are the lines of `log` as text.
pub open spec fn decoded(out: Seq<String>, log: Seq<u8>) -> bool {
    &&& out.len() == lines::lines_of(log).len()
    &&& forall|i: int|
        0 <= i < out.len() ==> (#[trigger] out[i])@ == log::utf8_lossy(lines::lines_of(log)[i])
}

/// Whether `step` is what `request` calls for in `state`.
pub open spec fn answers(state: daemon::State, request: Request, step: DatagramStep) -> bool {
    match request {
        Request::Run { .. } => step matches DatagramStep::Run(args) && request.asks_to_run(args),
        Request::List => step matches DatagramStep::List(rows) && lists(rows@, state.containers),
        Request::Kill { pid } => if state.containers.contains_key(pid) {
            step == (DatagramStep::Kill { pid })
        } else {
            step matches DatagramStep::KillRefused(resp) && !resp.ok && resp.error is Some
                && resp.error->Some_0@ == protocol::not_found_text(pid)
        },
        Request::Logs { pid, follow } => if follow {
            if state.containers.contains_key(pid) {
                step matches DatagramStep::Follow { pid: p, backlog } && p == pid && backlog@
                    == state.containers[pid].log
            } else {
                step matches DatagramStep::Refused(resp) && !resp.ok && resp.error@
                    == protocol::not_found_text(pid)
            }
        } else {
            match state.stored_log(pid) {
                Some(text) => step matches DatagramStep::Logs(out) && decoded(out@, text),
                None => step matches DatagramStep::Refused(resp) && !resp.ok && resp.error@
                    == protocol::not_found_text(pid),
            }
        },
        Request::Attach { .. } => step matches DatagramStep::Refused(resp) && !resp.ok
            && resp.error@ == "attach must be sent over the stream socket"@,
    }
}

/// The targets of a line: id and descriptor of every pipe with no write
/// outstanding, in order.
pub open spec fn idle_targets(pipes: Seq<AsyncPipeWriter>) -> Seq<(u64, i32)>
    decreases pipes.len(),
{
    if pipes.len() == 0 {
        Seq::empty()
    } else if pipes.last().in_flight {
        idle_targets(pipes.drop_last())
    } else {
        idle_targets(pipes.drop_last()).push((pipes.last().id, pipes.last().fd))
    }
}

impl daemon::State {
    /// The state after `line` came out of container `pid`: it is added to the
    /// container's log, or to the log it left behind.
    pub open spec fn with_line(self, pid: i32, line: Seq<u8>) -> daemon::State {
        if self.containers.contains_key(pid) {
            let c = self.containers[pid];
            self.with_container(
                pid,
                daemon::Container {
                    log: log::log_pushed(c.log, LOG_CAPACITY as int, line),
                    pipes: log::all_in_flight(c.pipes),
                    ..c
                },
            )
        } else if self.graveyard.contains_key(pid) {
            daemon::State {
                graveyard: self.graveyard.insert(
                    pid,
                    log::log_pushed(self.graveyard[pid], LOG_CAPACITY as int, line),
                ),
                ..self
            }
        } else {
            self
        }
    }

    /// The state after the write on pipe `id` of container `pid` ended.
    pub open spec fn with_write_done(self, pid: i32, id: u64, ok: bool) -> daemon::State {
        if self.containers.contains_key(pid) {
            let c = self.containers[pid];
            self.with_container(
                pid,
                daemon::Container { pipes: log::pipes_completed(c.pipes, id, ok), ..c },
            )
        } else {
            self
        }
    }
}

proof fn lemma_in_flight_keeps_ids(pipes: Seq<AsyncPipeWriter>, next: u64)
    requires
        daemon::distinct_ids(pipes),
        daemon::ids_below(pipes, next),
    ensures
        daemon::distinct_ids(log::all_in_flight(pipes)),
        daemon::ids_below(log::all_in_flight(pipes), next),
{
    let busy = log::all_in_flight(pipes);
    assert forall|i: int, j: int| 0 <= i < j < busy.len() implies (#[trigger] busy[i]).id != (
    #[trigger] busy[j]).id by {
        assert(pipes[i].id != pipes[j].id);
    }
    assert forall|i: int| 0 <= i < busy.len() implies (#[trigger] busy[i]).id < next by {
        assert(pipes[i].id < next);
    }
}

proof fn lemma_completed_keeps_ids(pipes: Seq<AsyncPipeWriter>, id: u64, ok: bool, next: u64)
    requires
        daemon::distinct_ids(pipes),
        daemon::ids_below(pipes, next),
    ensures
        daemon::distinct_ids(log::pipes_completed(pipes, id, ok)),
        daemon::ids_below(log::pipes_completed(pipes, id, ok), next),
{
    log::lemma_pipe_index(pipes, id);
    let left = log::pipes_completed(pipes, id, ok);
    let at = log::pipe_index(pipes, id);
    if at < pipes.len() && !ok {
        let origin = |i: int| if i == at { pipes.len() - 1 } else { i };
        assert forall|i: int, j: int| 0 <= i < j < left.len() implies (#[trigger] left[i]).id != (
        #[trigger] left[j]).id by {
            assert(left[i] == pipes[origin(i)]);
            assert(left[j] == pipes[origin(j)]);
            if origin(i) < origin(j) {
                assert(pipes[origin(i)].id != pipes[origin(j)].id);
            } else {
                assert(pipes[origin(j)].id != pipes[origin(i)].id);
            }
        }
        assert forall|i: int| 0 <= i < left.len() implies (#[trigger] left[i]).id < next by {
            assert(left[i] == pipes[origin(i)]);
        }
    }
}

impl DaemonState {
    fn list(&self) -> (rows: Vec<ContainerRow>)
        requires
            self.wf(),
        ensures
            lists(rows@, self@.containers),
    {
        let mut rows: Vec<ContainerRow> = Vec::new();
        let ghost infos = self.containers@;
        assert(self@.containers.dom() =~= infos.dom());
        for entry in it: self.containers.iter()
            invariant
                infos == self.containers@,
                self.wf(),
                self@.containers.dom() == infos.dom(),
                it.seq().no_duplicates(),
                it.seq().len() == infos.dom().len(),
                forall|k: int|
                    0 <= k < it.seq().len() ==> infos.contains_key(*(#[trigger] it.seq()[k]).0)
                        && infos[*it.seq()[k].0] == *it.seq()[k].1,
                rows@.len() == it.index(),
                forall|i: int|
                    0 <= i < rows@.len() ==> {
                        let row = #[trigger] rows@[i];
                        &&& row.pid == *it.seq()[i].0
                        &&& self@.containers.contains_key(row.pid)
                        &&& row.command@ == self@.containers[row.pid].command
                        &&& row.start_time == self@.containers[row.pid].start_time
                    },
        {
            assert(infos.contains_key(*entry.0));
            rows.push(
                ContainerRow {
                    pid: *entry.0,
                    command: entry.1.command.clone(),
                    start_time: entry.1.start_time,
                },
            );
        }
        assert forall|i: int, j: int| 0 <= i < j < rows@.len() implies (#[trigger] rows@[i]).pid
            != (#[trigger] rows@[j]).pid by {}
        rows
    }

    /// Decides what a datagram request calls for.
    pub fn handle_datagram(&self, request: Request) -> (step: DatagramStep)
        requires
            self.wf(),
        ensures
            answers(self@, request, step),
    {
        match request {
            Request::List => DatagramStep::List(self.list()),
            Request::Kill { pid } => match self.container(pid) {
                Some(_) => DatagramStep::Kill { pid },
                None => DatagramStep::KillRefused(
                    KillResponse { ok: false, error: Some(protocol::not_found(pid)) },
                ),
            },
            Request::Logs { pid, follow } => {
                if follow {
                    match self.container(pid) {
                        Some(info) => DatagramStep::Follow {
                            pid,
                            backlog: info.gateway.snapshot(),
                        },
                        None => DatagramStep::Refused(ErrorResponse::new(protocol::not_found(pid))),
                    }
                } else {
                    match self.container(pid) {
                        Some(info) => DatagramStep::Logs(info.gateway.collect_lines()),
                        None => match self.log_graveyard.get(&pid) {
                            Some(cache) => DatagramStep::Logs(cache.collect_lines()),
                            None => DatagramStep::Refused(
                                ErrorResponse::new(protocol::not_found(pid)),
                            ),
                        },
                    }
                }
            },
            Request::Attach { .. } => DatagramStep::Refused(
                ErrorResponse::new("attach must be sent over the stream socket".to_owned()),
            ),
            Request::Run { rootfs, net_pid, save, command, interactive, tty } => DatagramStep::Run(
                RunArgs::new(rootfs, net_pid, save, command, interactive, tty),
            ),
        }
    }

    /// Attaches the write end of `pipe` to container `pid`, after the backlog
    /// went into it. When the container is gone both ends come back, to be
    /// closed.
    pub fn attach_follower(&mut self, pid: i32, pipe: FdPair) -> (res: Result<u64, Vec<i32>>)
        requires
            old(self).wf(),
            old(self)@.next_pipe_id < u64::MAX,
        ensures
            final(self).wf(),
            final(self)@ == old(self)@.with_pipe(pid, pipe.write),
            match res {
                Ok(id) => old(self)@.containers.contains_key(pid) && id == old(self)@.next_pipe_id,
                Err(close) => !old(self)@.containers.contains_key(pid) && close@ == seq![
                    pipe.write,
                    pipe.read,
                ],
            },
    {
        match self.add_pipe(pid, pipe.write) {
            Some(id) => Ok(id),
            None => {
                let mut close: Vec<i32> = Vec::new();
                close.push(pipe.write);
                close.push(pipe.read);
                assert(close@ =~= seq![pipe.write, pipe.read]);
                Err(close)
            },
        }
    }

    /// Stores one line of container `pid`'s output. The pipes to write it to
    /// come back, each marked as being written.
    pub fn record_line(&mut self, pid: i32, line: &[u8]) -> (targets: Vec<(u64, i32)>)
        requires
            old(self).wf(),
            line@.len() < LOG_CAPACITY,
        ensures
            final(self).wf(),
            final(self)@ == old(self)@.with_line(pid, line@),
            targets@ == if old(self)@.containers.contains_key(pid) {
                idle_targets(old(self)@.containers[pid].pipes)
            } else {
                Seq::empty()
            },
    {
        let mut targets: Vec<(u64, i32)> = Vec::new();
        match self.take_container(pid) {
            Some(info) => {
                let ghost c = info@;
                let mut info = info;
                let ghost pipes = info.gateway.pipes@;
                let mut i: usize = 0;
                assert(pipes.take(0) =~= Seq::empty());
                while i < info.gateway.pipes.len()
                    invariant
                        i <= pipes.len(),
                        pipes == info.gateway.pipes@,
                        targets@ == idle_targets(pipes.take(i as int)),
                    decreases pipes.len() - i,
                {
                    assert(pipes.take(i + 1).drop_last() =~= pipes.take(i as int));
                    if !info.gateway.pipes[i].in_flight {
                        targets.push((info.gateway.pipes[i].id, info.gateway.pipes[i].fd));
                    }
                    i = i + 1;
                }
                assert(pipes.take(i as int) =~= pipes);
                info.gateway.push(line);
                proof {
                    lemma_in_flight_keeps_ids(pipes, self@.next_pipe_id);
                }
                self.put_container(info);
                assert(self@.containers =~= old(self)@.with_line(pid, line@).containers);
                assert(self@ =~= old(self)@.with_line(pid, line@));
            },
            None => {
                match self.log_graveyard.remove(&pid) {
                    Some(cache) => {
                        let mut cache = cache;
                        assert(old(self)@.graveyard.contains_key(pid));
                        cache.push(line);
                        self.log_graveyard.insert(pid, cache);
                        assert(self@.graveyard =~= old(self)@.with_line(pid, line@).graveyard);
                        assert(self@ =~= old(self)@.with_line(pid, line@));
                    },
                    None => {
                        assert(self@.graveyard =~= old(self)@.graveyard);
                        assert(self@ =~= old(self)@);
                    },
                }
            },
        }
        targets
    }

    /// Records that the write on pipe `id` of container `pid` ended. After a
    /// failed write the pipe's descriptor comes back, to be closed.
    pub fn line_written(&mut self, pid: i32, id: u64, ok: bool) -> (close: Option<i32>)
        requires
            old(self).wf(),
        ensures
            final(self).wf(),
            final(self)@ == old(self)@.with_write_done(pid, id, ok),
            close == if ok || !old(self)@.containers.contains_key(pid) || log::pipe_index(
                old(self)@.containers[pid].pipes,
                id,
            ) >= old(self)@.containers[pid].pipes.len() {
                None
            } else {
                let pipes = old(self)@.containers[pid].pipes;
                Some(pipes[log::pipe_index(pipes, id)].fd)
            },
    {
        match self.take_container(pid) {
            Some(info) => {
                let mut info = info;
                let ghost pipes = info.gateway.pipes@;
                let close: Option<i32> = info.gateway.complete_write(id, ok);
                proof {
                    lemma_completed_keeps_ids(pipes, id, ok, self@.next_pipe_id);
                }
                self.put_container(info);
                assert(self@.containers =~= old(self)@.with_write_done(pid, id, ok).containers);
                assert(self@ =~= old(self)@.with_write_done(pid, id, ok));
                close
            },
            None => None,
        }
    }

    /// The pipe that container `pid`'s output comes from.
    pub fn output_fd(&self, pid: i32) -> (fd: Option<i32>)
        ensures
            fd == if self@.outputs.contains_key(pid) {
                Some(self@.outputs[pid])
            } else {
                None
            },
    {
        match self.outputs.get(&pid) {
            Some(fd) => Some(*fd),
            None => None,
        }
    }

    /// Forgets the output pipe of container `pid`, which is at its end. Its
    /// descriptor comes back, to be closed.
    pub fn end_output(&mut self, pid: i32) -> (close: Option<i32>)
        requires
            old(self).wf(),
        ensures
            final(self).wf(),
            final(self)@ == (daemon::State {
                outputs: old(self)@.outputs.remove(pid),
                ..old(self)@
            }),
            close == if old(self)@.outputs.contains_key(pid) && old(self)@.outputs[pid] >= 0 {
                Some(old(self)@.outputs[pid])
            } else {
                None
            },
    {
        let removed: Option<i32> = self.outputs.remove(&pid);
        assert(self@.outputs =~= old(self)@.outputs.remove(pid));
        match removed {
            Some(fd) => if fd >= 0 {
                Some(fd)
            } else {
                None
            },
            None => None,
        }
    }

    /// The PTY master of container `pid`, or -1.
    pub fn pty_fd(&self, pid: i32) -> (fd: i32)
        requires
            self.wf(),
        ensures
            fd == if self@.containers.contains_key(pid) {
                self@.containers[pid].ptm_fd
            } else {
                -1i32
            },
    {
        match self.container(pid) {
            Some(info) => info.ptm_fd,
            None => -1,
        }
    }

    /// Forgets the PTY master of container `pid`, which is at its end. Its
    /// descriptor comes back, to be closed.
    pub fn end_pty(&mut self, pid: i32) -> (close: Option<i32>)
        requires
            old(self).wf(),
        ensures
            final(self).wf(),
            ({
                let here = old(self)@.containers.contains_key(pid)
                    && old(self)@.containers[pid].ptm_fd >= 0;
                let c = old(self)@.containers[pid];
                &&& here ==> close == Some(c.ptm_fd) && final(self)@ == old(self)@.with_container(
                    pid,
                    daemon::Container { ptm_fd: -1i32, ..c },
                )
                &&& !here ==> close is None && final(self)@ == old(self)@
            }),
    {
        if self.pty_fd(pid) < 0 {
            return None;
        }
        match self.take_container(pid) {
            Some(info) => {
                let ghost c = info@;
                let mut info = info;
                let fd: i32 = info.ptm_fd;
                info.ptm_fd = -1;
                self.put_container(info);
                assert(self@.containers =~= old(self)@.containers.insert(
                    pid,
                    daemon::Container { ptm_fd: -1i32, ..c },
                ));
                Some(fd)
            },
            None => None,
        }
    }
}

/// What to do while a backlog of `total` bytes goes into a pipe.
#[derive(Clone, Copy, Debug, PartialEq, Eq, Structural)]
pub enum BacklogStep {
    /// Write the rest, from this offset on.
    Write { from: usize },
    /// The backlog is in the pipe, or the pipe takes no more.
    Done,
    /// The write failed: close both ends and give up.
    Failed,
}

/// The first step of writing a backlog.
pub fn backlog_start(total: usize) -> (step: BacklogStep)
    ensures
        step == if total == 0 {
            BacklogStep::Done
        } else {
            BacklogStep::Write { from: 0 }
        },
{
    if total == 0 {
        BacklogStep::Done
    } else {
        BacklogStep::Write { from: 0 }
    }
}

/// The step after a write from offset `from` returned `n`.
pub fn backlog_next(total: usize, from: usize, n: isize) -> (step: BacklogStep)
    requires
        from < total,
        n <= total - from,
    ensures
        step == if n < 0 {
            BacklogStep::Failed
        } else if n == 0 || from + n == total {
            BacklogStep::Done
        } else {
            BacklogStep::Write { from: (from + n) as usize }
        },
{
    if n < 0 {
        return BacklogStep::Failed;
    }
    let written: usize = from + n as usize;
    if n == 0 || written == total {
        BacklogStep::Done
    } else {
        BacklogStep::Write { from: written }
    }
}

/// `line` and its newline, cut into pieces. All but the last carry exactly
/// `WRITE_CHUNK_PAYLOAD` bytes of the line.
pub open spec fn chunks_of(line: Seq<u8>) -> Seq<Seq<u8>>
    decreases line.len(),
{
    if line.len() <= WRITE_CHUNK_PAYLOAD {
        seq![line.push(lines::NEWLINE)]
    } else {
        seq![line.take(WRITE_CHUNK_PAYLOAD as int)] + chunks_of(
            line.skip(WRITE_CHUNK_PAYLOAD as int),
        )
    }
}

/// The pieces of `chunks`, one after the other.
pub open spec fn concat(chunks: Seq<Seq<u8>>) -> Seq<u8>
    decreases chunks.len(),
{
    if chunks.len() == 0 {
        Seq::empty()
    } else {
        chunks[0] + concat(chunks.skip(1))
    }
}

/// Cuts `line` and its newline into pieces that each fit one write buffer.
pub fn split_line(line: &[u8]) -> (chunks: Vec<Vec<u8>>)
    ensures
        lines::views(chunks@) == chunks_of(line@),
{
    let mut chunks: Vec<Vec<u8>> = Vec::new();
    let total: usize = line.len();
    let mut from: usize = 0;
    assert(line@.skip(0) =~= line@);
    assert(lines::views(chunks@) + chunks_of(line@) =~= chunks_of(line@));
    while total - from > WRITE_CHUNK_PAYLOAD
        invariant
            total == line@.len(),
            from <= total,
            lines::views(chunks@) + chunks_of(line@.skip(from as int)) == chunks_of(line@),
        decreases total - from,
    {
        let piece: Vec<u8> = lines::copy_range(line, from, from + WRITE_CHUNK_PAYLOAD);
        let ghost rest = line@.skip(from as int);
        let ghost before = lines::views(chunks@);
        proof {
            assert(piece@ =~= rest.take(WRITE_CHUNK_PAYLOAD as int));
            assert(rest.skip(WRITE_CHUNK_PAYLOAD as int) =~= line@.skip(
                from + WRITE_CHUNK_PAYLOAD,
            ));
        }
        let ghost added = piece@;
        chunks.push(piece);
        assert(lines::views(chunks@) =~= before.push(added));
        from = from + WRITE_CHUNK_PAYLOAD;
        assert(lines::views(chunks@) + chunks_of(line@.skip(from as int)) =~= before + chunks_of(
            rest,
        ));
    }
    let mut piece: Vec<u8> = lines::copy_range(line, from, total);
    piece.push(lines::NEWLINE);
    let ghost rest = line@.skip(from as int);
    let ghost before = lines::views(chunks@);
    let ghost added = piece@;
    assert(added =~= rest.push(lines::NEWLINE));
    chunks.push(piece);
    assert(lines::views(chunks@) =~= before + chunks_of(rest));
    chunks
}

/// Writing the pieces of a line in order delivers the line and its newline.
pub proof fn chunks_deliver_line(line: Seq<u8>)
    ensures
        concat(chunks_of(line)) == line.push(lines::NEWLINE),
    decreases line.len(),
{
    let cs = chunks_of(line);
    if line.len() <= WRITE_CHUNK_PAYLOAD {
        assert(cs.skip(1) =~= Seq::empty());
        assert(concat(cs.skip(1)) =~= Seq::<u8>::empty());
        assert(concat(cs) =~= line.push(lines::NEWLINE));
    } else {
        let rest = line.skip(WRITE_CHUNK_PAYLOAD as int);
        chunks_deliver_line(rest);
        assert(cs.skip(1) =~= chunks_of(rest));
        assert(concat(cs) =~= line.push(lines::NEWLINE));
    }
}

/// Every piece fits a buffer of one byte more than the chunk payload, and none
/// is empty.
pub proof fn chunks_fit_buffers(line: Seq<u8>)
    ensures
        chunks_of(line).len() > 0,
        forall|i: int|
            0 <= i < chunks_of(line).len() ==> 0 < (#[trigger] chunks_of(line)[i]).len()
                <= WRITE_CHUNK_PAYLOAD + 1,
        forall|i: int|
            0 <= i < chunks_of(line).len() - 1 ==> (#[trigger] chunks_of(line)[i]).len()
                == WRITE_CHUNK_PAYLOAD,
    decreases line.len(),
{
    if line.len() > WRITE_CHUNK_PAYLOAD {
        let rest = line.skip(WRITE_CHUNK_PAYLOAD as int);
        chunks_fit_buffers(rest);
        assert forall|i: int| 0 <= i < chunks_of(line).len() implies 0 < (
        #[trigger] chunks_of(line)[i]).len() <= WRITE_CHUNK_PAYLOAD + 1 by {
            if i > 0 {
                assert(chunks_of(line)[i] == chunks_of(rest)[i - 1]);
            }
        }
        assert forall|i: int| 0 <= i < chunks_of(line).len() - 1 implies (
        #[trigger] chunks_of(line)[i]).len() == WRITE_CHUNK_PAYLOAD by {
            if i > 0 {
                assert(chunks_of(line)[i] == chunks_of(rest)[i - 1]);
            }
        }
    }
}

/// The lines a container prints reach its log whether or not it has exited:
/// once it is gone they are added to the log it left behind.
pub proof fn late_lines_reach_the_log(s: daemon::State, pid: i32, line: Seq<u8>)
    requires
        s.stored_log(pid) is Some,
    ensures
        s.with_line(pid, line).stored_log(pid) == Some(
            log::log_pushed(s.stored_log(pid)->Some_0, LOG_CAPACITY as int, line),
        ),
{
}

/// The pipes that a line is written to are those the log gateway hands out.
pub proof fn targets_are_idle_pipes(pipes: Seq<AsyncPipeWriter>)
    ensures
        idle_targets(pipes).len() == log::idle_ids(pipes).len(),
        forall|i: int|
            0 <= i < idle_targets(pipes).len() ==> (#[trigger] idle_targets(pipes)[i]).0
                == log::idle_ids(pipes)[i],
    decreases pipes.len(),
{
    if pipes.len() > 0 {
        targets_are_idle_pipes(pipes.drop_last());
    }
}

/// A listing names every container that runs, with its command and the time it
/// started, and names none twice.
pub proof fn every_container_is_listed(
    rows: Seq<ContainerRow>,
    containers: Map<i32, daemon::Container>,
    pid: i32,
)
    requires
        containers.dom().finite(),
        lists(rows, containers),
    ensures
        containers.contains_key(pid) <==> exists|i: int|
            0 <= i < rows.len() && (#[trigger] rows[i]).pid == pid && rows[i].command@
                == containers[pid].command && rows[i].start_time == containers[pid].start_time,
{
    let pids = rows.map_values(|r: ContainerRow| r.pid);
    assert(pids.no_duplicates());
    pids.unique_seq_to_set();
    let named = pids.to_set();
    assert forall|p: i32| named.contains(p) implies containers.dom().contains(p) by {
        let i = choose|i: int| 0 <= i < pids.len() && pids[i] == p;
        assert(rows[i].pid == p);
    }
    assert(named.subset_of(containers.dom()));
    assert(named.len() == containers.dom().len());
    vstd::set_lib::lemma_subset_equality(named, containers.dom());
    if containers.contains_key(pid) {
        assert(named.contains(pid));
        let i = choose|i: int| 0 <= i < pids.len() && pids[i] == pid;
        assert(rows[i].pid == pid);
    }
}

/// Requests are answered by what runs. Only a container that runs can be killed
/// or followed, and it is the one that was named; the log of one that is gone
/// can still be read, but not followed. Attaching is refused here.
pub proof fn requests_concern_what_runs(
    state: daemon::State,
    request: Request,
    step: DatagramStep,
)
    requires
        answers(state, request, step),
    ensures
        request matches Request::Kill { pid } ==> {
            &&& step is Kill <==> state.containers.contains_key(pid)
            &&& step is Kill ==> step == (DatagramStep::Kill { pid })
            &&& !(step is Kill) ==> (step matches DatagramStep::KillRefused(resp) && !resp.ok
                && resp.error is Some && resp.error->Some_0@ == "container "@
                + text::signed_decimal(pid as int) + " not found"@)
        },
        request matches Request::Logs { pid, follow } ==> {
            &&& step is Follow <==> follow && state.containers.contains_key(pid)
            &&& step matches DatagramStep::Follow { pid: p, backlog } ==> p == pid && backlog@
                == state.containers[pid].log
            &&& step is Logs <==> !follow && (state.containers.contains_key(pid)
                || state.graveyard.contains_key(pid))
            &&& step matches DatagramStep::Logs(out) ==> if state.containers.contains_key(pid) {
                decoded(out@, state.containers[pid].log)
            } else {
                decoded(out@, state.graveyard[pid])
            }
            &&& !(step is Follow) && !(step is Logs) ==> (step matches DatagramStep::Refused(resp)
                && !resp.ok && resp.error@ == "container "@ + text::signed_decimal(pid as int)
                + " not found"@)
        },
        step is Run <==> request is Run,
        step matches DatagramStep::Run(args) ==> request.asks_to_run(args),
        step matches DatagramStep::List(rows) ==> lists(rows@, state.containers),
        step is List <==> request is List,
        request is Attach ==> (step matches DatagramStep::Refused(resp) && !resp.ok && resp.error@
            == "attach must be sent over the stream socket"@),
{
}

/// A new line goes to exactly the followers that have no write outstanding,
/// each under its own id and descriptor.
pub proof fn line_goes_to_idle_followers(pipes: Seq<AsyncPipeWriter>, id: u64, fd: i32)
    ensures
        idle_targets(pipes).contains((id, fd)) <==> exists|i: int|
            0 <= i < pipes.len() && (#[trigger] pipes[i]).id == id && pipes[i].fd == fd
                && !pipes[i].in_flight,
        idle_targets(log::all_in_flight(pipes)).len() == 0,
    decreases pipes.len(),
{
    targets_are_idle_pipes(log::all_in_flight(pipes));
    log::busy_pipes_get_no_second_write(pipes);
    if pipes.len() > 0 {
        let rest = pipes.drop_last();
        let before = idle_targets(rest);
        let targets = idle_targets(pipes);
        line_goes_to_idle_followers(rest, id, fd);
        let last = pipes.len() - 1;
        if targets.contains((id, fd)) {
            let k = choose|k: int| 0 <= k < targets.len() && targets[k] == (id, fd);
            if k < before.len() {
                assert(before[k] == (id, fd));
                let i = choose|i: int|
                    0 <= i < rest.len() && (#[trigger] rest[i]).id == id && rest[i].fd == fd
                        && !rest[i].in_flight;
                assert(pipes[i].id == id && pipes[i].fd == fd && !pipes[i].in_flight);
            } else {
                assert(pipes[last].id == id && pipes[last].fd == fd && !pipes[last].in_flight);
            }
        }
        if exists|i: int|
            0 <= i < pipes.len() && (#[trigger] pipes[i]).id == id && pipes[i].fd == fd
                && !pipes[i].in_flight {
            let i = choose|i: int|
                0 <= i < pipes.len() && (#[trigger] pipes[i]).id == id && pipes[i].fd == fd
                    && !pipes[i].in_flight;
            if i < last {
                assert(rest[i].id == id && rest[i].fd == fd && !rest[i].in_flight);
                let k = choose|k: int| 0 <= k < before.len() && before[k] == (id, fd);
                assert(targets[k] == (id, fd));
            } else {
                assert(targets[before.len() as int] == (id, fd));
            }
        }
    }
}

/// A line concerns one container. While its log has room among 65536 bytes the
/// line is added at the end and nothing is lost; every follower of a running
/// container is then being written. Nothing else changes, and the output of a
/// container that was never there is dropped.
pub proof fn line_concerns_one_container(s: daemon::State, pid: i32, line: Seq<u8>, other: i32)
    requires
        other != pid,
    ensures
        ({
            let after = s.with_line(pid, line);
            let log = s.stored_log(pid);
            &&& log is None ==> after == s
            &&& log is Some && log->Some_0.len() + line.len() + 1 <= 65536
                ==> after.stored_log(pid) == Some(log->Some_0 + line + seq![10u8])
            &&& after.containers.dom() == s.containers.dom()
            &&& s.containers.contains_key(pid) ==> {
                &&& after.containers[pid].pipes.len() == s.containers[pid].pipes.len()
                &&& forall|i: int|
                    0 <= i < after.containers[pid].pipes.len() ==> (
                    #[trigger] after.containers[pid].pipes[i]).in_flight
                &&& after.containers[pid] == (daemon::Container {
                    log: after.containers[pid].log,
                    pipes: after.containers[pid].pipes,
                    ..s.containers[pid]
                })
            }
            &&& after.containers[other] == s.containers[other]
            &&& after.stored_log(other) == s.stored_log(other)
            &&& after.sessions == s.sessions && after.outputs == s.outputs
        }),
{
    let after = s.with_line(pid, line);
    assert(after.containers.dom() =~= s.containers.dom());
    if let Some(log) = s.stored_log(pid) {
        if log.len() + line.len() + 1 <= 65536 {
            log::push_with_room_appends(log, LOG_CAPACITY as int, line);
            assert(log + line.push(lines::NEWLINE) =~= log + line + seq![10u8]);
        }
    }
}

/// The end of a write concerns the follower's own container, and there only the
/// pipes.
pub proof fn write_concerns_one_container(
    s: daemon::State,
    pid: i32,
    id: u64,
    ok: bool,
    other: i32,
)
    requires
        other != pid,
    ensures
        ({
            let after = s.with_write_done(pid, id, ok);
            &&& after.containers.dom() == s.containers.dom()
            &&& s.containers.contains_key(pid) ==> after.containers[pid] == (daemon::Container {
                pipes: after.containers[pid].pipes,
                ..s.containers[pid]
            })
            &&& after.containers[other] == s.containers[other]
            &&& after.sessions == s.sessions && after.outputs == s.outputs && after.graveyard
                == s.graveyard
        }),
{
    assert(s.with_write_done(pid, id, ok).containers.dom() =~= s.containers.dom());
}

/// A line of at most 65535 bytes goes out in one piece; a longer one is cut
/// after each 65535 bytes.
pub proof fn long_lines_are_cut(line: Seq<u8>)
    ensures
        line.len() <= 65535 ==> chunks_of(line) == seq![line + seq![10u8]],
        line.len() > 65535 ==> chunks_of(line)[0] == line.take(65535) && chunks_of(line).skip(1)
            == chunks_of(line.skip(65535)),
{
    assert(line.push(lines::NEWLINE) =~= line + seq![10u8]);
    if line.len() > 65535 {
        assert(chunks_of(line).skip(1) =~= chunks_of(line.skip(65535)));
    }
}

/// The lines of a log are handed out one by one, oldest first, each as the text
/// of that line.
pub proof fn logged_lines_are_handed_out(out: Seq<String>, lines: Seq<Seq<u8>>, i: int)
    requires
        forall|k: int| 0 <= k < lines.len() ==> lines::one_line(#[trigger] lines[k]),
        decoded(out, lines::joined(lines)),
        0 <= i < lines.len(),
    ensures
        out.len() == lines.len(),
        out[i]@ == log::utf8_lossy(lines[i]),
{
    lines::lines_of_joined(lines);
}

/// Targets are taken in the order of the followers: of two lists one behind the
/// other, those of the first come first, and each once.
pub proof fn targets_are_taken_in_order(a: Seq<AsyncPipeWriter>, b: Seq<AsyncPipeWriter>)
    ensures
        idle_targets(a + b) == idle_targets(a) + idle_targets(b),
        a.len() == 1 ==> idle_targets(a) == if a[0].in_flight {
            Seq::<(u64, i32)>::empty()
        } else {
            seq![(a[0].id, a[0].fd)]
        },
    decreases b.len(),
{
    if a.len() == 1 {
        reveal_with_fuel(idle_targets, 2);
        assert(a.drop_last() =~= Seq::empty());
    }
    if b.len() == 0 {
        assert(a + b =~= a);
        assert(idle_targets(a) + idle_targets(b) =~= idle_targets(a));
    } else {
        targets_are_taken_in_order(a, b.drop_last());
        assert((a + b).drop_last() =~= a + b.drop_last());
        assert((a + b).last() == b.last());
        assert(idle_targets(a + b) =~= idle_targets(a) + idle_targets(b));
    }
}

/// No log outgrows 65536 bytes, whether its container runs or is gone.
pub proof fn logs_stay_within_their_capacity(s: daemon::State, pid: i32, line: Seq<u8>)
    requires
        s.stored_log(pid) is Some,
        lines::tail_of(s.stored_log(pid)->Some_0) == Seq::<u8>::empty(),
        line.len() < 65536,
    ensures
        s.with_line(pid, line).stored_log(pid) matches Some(log) && log.len() <= 65536
            && log.skip(log.len() - line.len() - 1) == line + seq![10u8],
{
    let log = s.stored_log(pid)->Some_0;
    log::pushed_text_is_at_the_end(log, LOG_CAPACITY as int, line);
    let after = log::log_pushed(log, LOG_CAPACITY as int, line);
    assert(after.skip(after.len() - line.len() - 1) =~= line + seq![10u8]);
}

} // verus!
