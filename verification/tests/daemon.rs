use conrt::cstring::CString;
use conrt::daemon::requests::backlog_next;
use conrt::daemon::requests::backlog_start;
use conrt::daemon::requests::split_line;
use conrt::daemon::requests::BacklogStep;
use conrt::daemon::requests::DatagramStep;
use conrt::daemon::requests::WRITE_CHUNK_PAYLOAD;
use conrt::daemon::run::clone_plan;
use conrt::daemon::run::drain_tasks;
use conrt::daemon::run::ns_path;
use conrt::daemon::run::persistent_tasks;
use conrt::daemon::run::ChildStep;
use conrt::daemon::run::InitStep;
use conrt::daemon::run::PrepareStep;
use conrt::daemon::run::RunEvent;
use conrt::daemon::run::sync_steps;
use conrt::daemon::run::AnswerStep;
use conrt::daemon::run::RunFlow;
use conrt::daemon::run::RunReply;
use conrt::daemon::run::SyncStep;
use conrt::daemon::run::RunStage;
use conrt::daemon::run::TaskKind;
use conrt::daemon::sessions::frame_kind;
use conrt::daemon::sessions::ClientFrame;
use conrt::daemon::sessions::FrameKind;
use conrt::daemon::sessions::FrameStep;
use conrt::daemon::sessions::OutputAction;
use conrt::daemon::sessions::OutputEvent;
use conrt::daemon::sessions::SessionOutput;
use conrt::daemon::DaemonState;
use conrt::frame::build_frame;
use conrt::protocol::CStringSerde;
use conrt::protocol::ErrorResponse;
use conrt::protocol::KillResponse;
use conrt::protocol::Request;
use conrt::protocol::RunResponse;
use conrt::sys::FdPair;

fn pair(read: i32, write: i32) -> FdPair {
    FdPair { read, write }
}

/// A detached run up to the point where the container runs.
fn started(pid: i32, tty: bool, interactive: bool) -> RunFlow {
    let mut flow = RunFlow::new(false, tty, interactive);
    if flow.stage == RunStage::StdinPipe {
        flow.advance(RunEvent::Pipe(pair(30, 31)));
    }
    if flow.stage == RunStage::OpenPty {
        flow.advance(RunEvent::Pty {
            master: 40,
            slave: 41,
        });
    }
    flow.advance(RunEvent::Pipe(pair(50, 51)));
    flow.advance(RunEvent::Cloned { pid });
    flow.advance(RunEvent::MapsDone);
    assert_eq!(flow.stage, RunStage::Started);
    flow
}

fn command() -> Vec<CString> {
    vec![CString::of("echo"), CString::of("hi")]
}

fn with_container(pid: i32) -> DaemonState {
    let mut state = DaemonState::new();
    let flow = started(pid, false, false);
    state.start_detached(&flow, &command(), Some("/tmp/o".to_string()), false, 5);
    state.drain_spawned(pid);
    state
}

#[test]
fn list_is_empty_until_a_container_runs() {
    let state = DaemonState::new();
    assert!(matches!(
        state.handle_datagram(Request::List),
        DatagramStep::List(rows) if rows.is_empty()
    ));
    let state = with_container(9);
    match state.handle_datagram(Request::List) {
        DatagramStep::List(rows) => {
            assert_eq!(rows.len(), 1);
            assert_eq!(rows[0].pid, 9);
            assert_eq!(rows[0].command, "echo hi");
            assert_eq!(rows[0].start_time, 5);
        }
        _ => panic!("a listing expected"),
    }
}

#[test]
fn unknown_containers_are_named_in_the_answer() {
    let state = DaemonState::new();
    match state.handle_datagram(Request::Kill { pid: 99999 }) {
        DatagramStep::KillRefused(resp) => {
            assert!(!resp.ok);
            assert_eq!(resp.error.as_deref(), Some("container 99999 not found"));
        }
        _ => panic!("a refusal expected"),
    }
    for follow in [false, true] {
        match state.handle_datagram(Request::Logs { pid: -3, follow }) {
            DatagramStep::Refused(resp) => {
                assert!(!resp.ok);
                assert_eq!(resp.error, "container -3 not found");
            }
            _ => panic!("a refusal expected"),
        }
    }
    match state.handle_datagram(Request::Attach { pid: 1 }) {
        DatagramStep::Refused(resp) => {
            assert_eq!(resp.error, "attach must be sent over the stream socket");
        }
        _ => panic!("a refusal expected"),
    }
}

#[test]
fn known_containers_can_be_killed() {
    let state = with_container(9);
    assert!(matches!(
        state.handle_datagram(Request::Kill { pid: 9 }),
        DatagramStep::Kill { pid: 9 }
    ));
    let sent = KillResponse::sent(Ok(()));
    assert!(sent.ok && sent.error.is_none());
    let failed = KillResponse::sent(Err("no".to_string()));
    assert_eq!(failed.error.as_deref(), Some("kill failed: no"));
}

#[test]
fn logs_are_there_before_and_after_the_exit() {
    let mut state = with_container(9);
    assert!(state.record_line(9, b"one").is_empty());
    let reaped = state.reap_child(9, 0);
    // The output is still being drained, so the container stays.
    assert!(reaped.notify.is_none());
    assert!(reaped.removed.close.is_empty());
    state.record_line(9, b"two");
    let removed = state.finish_drain(9);
    assert_eq!(removed.cleanup.as_deref(), Some("/tmp/o"));
    state.record_line(9, b"three");
    match state.handle_datagram(Request::Logs {
        pid: 9,
        follow: false,
    }) {
        DatagramStep::Logs(lines) => assert_eq!(lines, ["one", "two", "three"]),
        _ => panic!("lines expected"),
    }
    // There is nothing left to kill or to follow.
    assert!(matches!(
        state.handle_datagram(Request::Kill { pid: 9 }),
        DatagramStep::KillRefused(_)
    ));
}

#[test]
fn saved_overlays_are_not_cleaned_up() {
    let mut state = DaemonState::new();
    let flow = started(4, false, false);
    state.start_detached(&flow, &command(), Some("/tmp/o".to_string()), true, 0);
    let reaped = state.reap_child(4, 0);
    assert!(reaped.removed.cleanup.is_none());
}

#[test]
fn container_with_pty_waits_for_both_drains() {
    let mut state = DaemonState::new();
    let flow = started(4, true, false);
    state.start_detached(&flow, &command(), None, false, 0);
    assert_eq!(state.pty_fd(4), 40);
    assert_eq!(state.output_fd(4), Some(50));
    let drains = drain_tasks(4, 40);
    assert_eq!(
        drains,
        [
            TaskKind::ContainerOutput { pid: 4 },
            TaskKind::ContainerPtyOutput { pid: 4 }
        ]
    );
    for _ in &drains {
        state.drain_spawned(4);
    }
    assert!(state.reap_child(4, 0).removed.close.is_empty());
    assert_eq!(state.end_output(4), Some(50));
    assert_eq!(state.end_output(4), None);
    assert!(state.finish_drain(4).close.is_empty());
    assert_eq!(state.end_pty(4), Some(40));
    assert_eq!(state.pty_fd(4), -1);
    state.finish_drain(4);
    assert!(matches!(
        state.handle_datagram(Request::List),
        DatagramStep::List(rows) if rows.is_empty()
    ));
}

#[test]
fn followers_get_backlog_then_lines() {
    let mut state = with_container(9);
    state.record_line(9, b"old");
    match state.handle_datagram(Request::Logs {
        pid: 9,
        follow: true,
    }) {
        DatagramStep::Follow { pid, backlog } => {
            assert_eq!(pid, 9);
            assert_eq!(backlog, b"old\n");
        }
        _ => panic!("a backlog expected"),
    }
    let first = state.attach_follower(9, pair(60, 61)).unwrap();
    let second = state.attach_follower(9, pair(62, 63)).unwrap();
    assert_ne!(first, second);
    assert_eq!(
        state.record_line(9, b"new"),
        vec![(first, 61), (second, 63)]
    );
    assert_eq!(state.line_written(9, first, true), None);
    assert_eq!(state.record_line(9, b"more"), vec![(first, 61)]);
    assert_eq!(state.line_written(9, second, false), Some(63));
    assert_eq!(state.attach_follower(8, pair(70, 71)), Err(vec![71, 70]));
    // With the container its pipes go.
    state.reap_child(9, 0);
    assert_eq!(state.finish_drain(9).close, vec![61]);
}

#[test]
fn backlog_is_written_in_pieces() {
    assert!(matches!(backlog_start(0), BacklogStep::Done));
    assert!(matches!(backlog_start(10), BacklogStep::Write { from: 0 }));
    assert!(matches!(
        backlog_next(10, 0, 4),
        BacklogStep::Write { from: 4 }
    ));
    assert!(matches!(backlog_next(10, 4, 6), BacklogStep::Done));
    assert!(matches!(backlog_next(10, 4, 0), BacklogStep::Done));
    assert!(matches!(backlog_next(10, 4, -1), BacklogStep::Failed));
}

#[test]
fn long_lines_are_split_and_end_with_a_newline() {
    assert_eq!(split_line(b""), vec![b"\n".to_vec()]);
    assert_eq!(split_line(b"ab"), vec![b"ab\n".to_vec()]);
    let long = vec![b'x'; WRITE_CHUNK_PAYLOAD + 3];
    let chunks = split_line(&long);
    assert_eq!(chunks.len(), 2);
    assert_eq!(chunks[0].len(), WRITE_CHUNK_PAYLOAD);
    assert_eq!(chunks[1], b"xxx\n");
}

#[test]
fn exit_reaches_the_attached_client() {
    let mut state = DaemonState::new();
    let sid = state.open_session(20);
    let mut flow = RunFlow::new(true, false, false);
    assert_eq!(flow.stage, RunStage::LogPipe);
    flow.advance(RunEvent::Pipe(pair(50, 51)));
    flow.advance(RunEvent::Cloned { pid: 7 });
    let step = flow.advance(RunEvent::MapsDone);
    assert_eq!(step.close, vec![51]);
    state.start_attached(sid, &flow, &command(), None, false, 0);
    let mut output = SessionOutput::start(&state, sid).unwrap();
    assert_eq!(output.fd, 50);
    match output.step(&state, OutputEvent::Read(b"hi".to_vec())) {
        OutputAction::SendData { fd, frame } => {
            assert_eq!(fd, 20);
            assert_eq!(frame, build_frame(0x10, b"hi"));
        }
        _ => panic!("a data frame expected"),
    }
    assert!(matches!(
        output.step(&state, OutputEvent::FrameSent(true)),
        OutputAction::ReadMore
    ));
    // The output ends before the exit is known.
    assert!(matches!(
        output.step(&state, OutputEvent::Read(Vec::new())),
        OutputAction::WaitExit
    ));
    let reaped = state.reap_child(7, 3 << 8);
    assert_eq!(reaped.notify, Some(sid));
    assert!(matches!(
        output.step(&state, OutputEvent::ExitNotified),
        OutputAction::SendExit {
            fd: 20,
            exit_code: 3
        }
    ));
    assert_eq!(state.close_session(sid), Some(vec![20, 50]));
    assert_eq!(state.close_session(sid), None);
}

#[test]
fn killed_children_report_their_signal() {
    let mut state = DaemonState::new();
    let sid = state.open_session(20);
    let mut flow = RunFlow::new(true, false, false);
    flow.advance(RunEvent::Pipe(pair(50, 51)));
    flow.advance(RunEvent::Cloned { pid: 7 });
    flow.advance(RunEvent::MapsDone);
    state.start_attached(sid, &flow, &command(), None, false, 0);
    let mut output = SessionOutput::start(&state, sid).unwrap();
    state.reap_child(7, libc::SIGKILL);
    assert!(matches!(
        output.step(&state, OutputEvent::Read(Vec::new())),
        OutputAction::SendExit { exit_code: 137, .. }
    ));
    assert_eq!(conrt::sys::exit_code(0), 0);
    assert_eq!(conrt::sys::exit_code(255 << 8), 255);
    // Neither exited nor killed: stopped.
    assert_eq!(conrt::sys::exit_code(0x137f), 1);
}

#[test]
fn client_frames_reach_the_container() {
    let mut state = with_container(9);
    let sid = state.open_session(20);
    assert_eq!(state.attach_begin(9), Ok(-1));
    assert_eq!(
        state.attach_begin(8),
        Err("container 8 not found".to_string())
    );
    state
        .attach_finish(sid, 9, 33, pair(60, 61))
        .expect("the container is there");
    match state.dispatch_frame(sid, ClientFrame::Data(b"in".to_vec())) {
        FrameStep::Write { fd, data } => {
            assert_eq!(fd, 33);
            assert_eq!(data, b"in");
        }
        _ => panic!("a write expected"),
    }
    assert!(matches!(
        state.dispatch_frame(sid, ClientFrame::Data(Vec::new())),
        FrameStep::Nothing
    ));
    // Without a PTY there is nothing to resize.
    assert!(matches!(
        state.dispatch_frame(sid, ClientFrame::WinSize(Some((24, 80)))),
        FrameStep::Nothing
    ));
    assert!(matches!(
        state.dispatch_frame(sid, ClientFrame::StdinEof),
        FrameStep::Close { fd: 33 }
    ));
    assert!(matches!(
        state.dispatch_frame(sid, ClientFrame::StdinEof),
        FrameStep::Nothing
    ));
    assert!(matches!(
        state.dispatch_frame(sid, ClientFrame::Unknown),
        FrameStep::EndSession
    ));
    assert!(matches!(
        state.dispatch_frame(sid, ClientFrame::Request(None)),
        FrameStep::EndSession
    ));
    assert!(matches!(
        state.dispatch_frame(sid, ClientFrame::Request(Some(Request::List))),
        FrameStep::EndSession
    ));
    assert!(matches!(
        state.dispatch_frame(sid, ClientFrame::Request(Some(Request::Attach { pid: 9 }))),
        FrameStep::Attach { pid: 9 }
    ));
    assert_eq!(
        state.attach_frame(sid, 0x01, b"{}"),
        Some((20, build_frame(0x01, b"{}")))
    );
    assert_eq!(state.attach_frame(sid + 1, 0x01, b"{}"), None);
}

#[test]
fn run_requests_become_arguments() {
    let request = Request::Run {
        rootfs: None,
        net_pid: Some(3),
        save: true,
        command: CStringSerde::from_inner_vec(command()),
        interactive: None,
        tty: Some(true),
    };
    match DaemonState::new().handle_datagram(request) {
        DatagramStep::Run(args) => {
            assert_eq!(args.net_pid, Some(3));
            assert!(args.save && args.tty && !args.interactive);
            assert_eq!(args.command[1].to_bytes(), b"hi");
        }
        _ => panic!("a run expected"),
    }
    let resp = RunResponse::started(5);
    assert!(resp.ok && resp.pid == Some(5) && resp.error.is_none());
    assert_eq!(
        ErrorResponse::invalid_request("eof").error,
        "invalid request: eof"
    );
}

#[test]
fn failed_runs_say_why_and_close_what_is_open() {
    let mut flow = RunFlow::new(false, true, false);
    flow.advance(RunEvent::Pty {
        master: 40,
        slave: 41,
    });
    flow.advance(RunEvent::Pipe(pair(50, 51)));
    let step = flow.advance(RunEvent::Failed("EAGAIN".to_string()));
    assert_eq!(step.error.as_deref(), Some("clone3 failed: EAGAIN"));
    assert_eq!(step.close, vec![50, 51, 40, 41]);
    assert_eq!(flow.stage, RunStage::Failed);

    let mut flow = RunFlow::new(false, false, true);
    let step = flow.advance(RunEvent::Failed("x".to_string()));
    assert_eq!(step.error.as_deref(), Some("stdin pipe creation failed: x"));

    let mut flow = RunFlow::new(true, true, false);
    let step = flow.advance(RunEvent::Failed("x".to_string()));
    assert_eq!(step.error.as_deref(), Some("pty allocation failed: x"));

    let mut flow = RunFlow::new(true, false, false);
    let step = flow.advance(RunEvent::Failed("x".to_string()));
    assert_eq!(step.error.as_deref(), Some("log pipe creation failed: x"));

    let mut flow = RunFlow::new(false, false, true);
    flow.advance(RunEvent::Pipe(pair(30, 31)));
    flow.advance(RunEvent::Pipe(pair(50, 51)));
    let step = flow.advance(RunEvent::Cloned { pid: 3 });
    assert_eq!(step.close, vec![51, 30]);
    let step = flow.advance(RunEvent::Failed("x".to_string()));
    assert_eq!(step.error.as_deref(), Some("container aborted: x"));
    assert_eq!(step.close, vec![50, 31]);
}

#[test]
fn children_send_their_output_to_the_log() {
    let mut flow = RunFlow::new(false, true, false);
    flow.advance(RunEvent::Pty {
        master: 40,
        slave: 41,
    });
    flow.advance(RunEvent::Pipe(pair(50, 51)));
    flow.advance(RunEvent::Forked);
    assert_eq!(flow.stage, RunStage::Child);
    assert_eq!(
        flow.child_steps(),
        [
            ChildStep::Close { fd: 50 },
            ChildStep::Close { fd: 40 },
            ChildStep::TakeTerminal { slave: 41 },
            ChildStep::Dup { from: 51, to: 1 },
            ChildStep::Dup { from: 51, to: 2 },
            ChildStep::Close { fd: 51 },
        ]
    );
    let mut flow = RunFlow::new(false, false, false);
    flow.advance(RunEvent::Pipe(pair(50, 51)));
    flow.advance(RunEvent::Forked);
    assert_eq!(flow.child_steps().last(), Some(&ChildStep::NullStdin));
}

#[test]
fn preparation_goes_in_order() {
    let mut step = PrepareStep::first(true);
    let mut seen = vec![step];
    while step != PrepareStep::Ready {
        step = step.next(true);
        seen.push(step);
    }
    assert_eq!(
        seen,
        [
            PrepareStep::Canonicalize,
            PrepareStep::CreateOverlay,
            PrepareStep::SyncPipe,
            PrepareStep::OpenUserNs,
            PrepareStep::OpenNetNs,
            PrepareStep::JoinUserNs,
            PrepareStep::JoinNetNs,
            PrepareStep::Ready,
        ]
    );
    assert_eq!(PrepareStep::first(false), PrepareStep::SyncPipe);
    assert_eq!(PrepareStep::SyncPipe.next(false), PrepareStep::Ready);
    let why = "ENOENT";
    assert_eq!(
        PrepareStep::Canonicalize.failure(0, why),
        "invalid rootfs path: ENOENT"
    );
    assert_eq!(
        PrepareStep::OpenNetNs.failure(12, why),
        "cannot open pid 12 net ns: ENOENT"
    );
    assert_eq!(
        PrepareStep::JoinUserNs.failure(12, why),
        "setns(CLONE_NEWUSER) into pid 12 failed: ENOENT"
    );
    assert_eq!(ns_path(12, "user"), "/proc/12/ns/user");
}

#[test]
fn joined_namespaces_are_not_cloned() {
    let own = libc::CLONE_NEWPID | libc::CLONE_NEWNS | libc::CLONE_NEWUTS | libc::CLONE_NEWIPC;
    assert_eq!(clone_plan(Some(5)), (own, false));
    assert_eq!(
        clone_plan(None),
        (own | libc::CLONE_NEWUSER | libc::CLONE_NEWNET, true)
    );
}

#[test]
fn daemon_starts_three_tasks() {
    assert_eq!(
        persistent_tasks(),
        [
            TaskKind::Datagram,
            TaskKind::Accept,
            TaskKind::SignalReaper
        ]
    );
    assert_eq!(
        drain_tasks(4, -1),
        [TaskKind::ContainerOutput { pid: 4 }]
    );
    assert_eq!(frame_kind(0x00), FrameKind::Request);
    assert_eq!(frame_kind(0x02), FrameKind::Unknown);
    assert_eq!(frame_kind(0x10), FrameKind::Data);
    assert_eq!(frame_kind(0x11), FrameKind::StdinEof);
    assert_eq!(frame_kind(0x20), FrameKind::WinSize);
}

#[test]
fn attached_runs_close_everything_when_the_clone_fails() {
    let mut flow = RunFlow::new(true, true, false);
    assert_eq!(flow.stage, RunStage::OpenPty);
    flow.advance(RunEvent::Pty {
        master: 60,
        slave: 61,
    });
    assert_eq!(flow.stage, RunStage::Clone);
    let step = flow.advance(RunEvent::Failed("EAGAIN".to_string()));
    assert_eq!(step.close, vec![61, 60]);
    assert_eq!(step.error, Some("clone3 failed: EAGAIN".to_string()));
}

#[test]
fn attached_children_get_their_terminal_or_the_log_pipe() {
    let mut flow = RunFlow::new(true, false, true);
    flow.advance(RunEvent::Pty {
        master: 60,
        slave: 61,
    });
    flow.advance(RunEvent::Forked);
    assert_eq!(
        flow.child_steps(),
        vec![
            ChildStep::Close { fd: 60 },
            ChildStep::TakeTerminal { slave: 61 },
        ]
    );
    let mut flow = RunFlow::new(true, false, false);
    flow.advance(RunEvent::Pipe(pair(50, 51)));
    flow.advance(RunEvent::Forked);
    assert_eq!(
        flow.child_steps(),
        vec![
            ChildStep::Close { fd: 50 },
            ChildStep::Dup { from: 51, to: 1 },
            ChildStep::Dup { from: 51, to: 2 },
            ChildStep::Close { fd: 51 },
            ChildStep::NullStdin,
        ]
    );
}

#[test]
fn new_state_has_free_ids() {
    let mut state = DaemonState::new();
    assert!(state.has_free_ids());
    state.open_session(20);
    assert!(state.has_free_ids());
}

#[test]
fn child_runs_its_command_last() {
    let path = |has_rootfs: bool, fails: InitStep| {
        let mut steps = vec![InitStep::Loopback];
        while *steps.last().unwrap() != InitStep::GiveUp {
            let step = *steps.last().unwrap();
            steps.push(step.next(has_rootfs, step != fails));
        }
        steps
    };
    assert_eq!(
        path(true, InitStep::Loopback),
        vec![
            InitStep::Loopback,
            InitStep::Hostname,
            InitStep::MountOverlay,
            InitStep::EnterRoot,
            InitStep::Exec,
            InitStep::GiveUp,
        ]
    );
    assert_eq!(
        path(false, InitStep::Hostname),
        vec![
            InitStep::Loopback,
            InitStep::Hostname,
            InitStep::Exec,
            InitStep::GiveUp,
        ]
    );
    assert!(!path(true, InitStep::MountOverlay).contains(&InitStep::Exec));
    assert!(!path(true, InitStep::EnterRoot).contains(&InitStep::Exec));
}

#[test]
fn map_failure_names_the_map() {
    assert_eq!(
        conrt::container::map_failure("denied"),
        "uid_map write failed: denied"
    );
}

#[test]
fn every_run_is_answered_once() {
    let flow = started(9, false, false);
    match flow.answer(None).as_slice() {
        [AnswerStep::Datagram(RunReply::Started(answer))] => {
            assert!(answer.ok);
            assert_eq!(answer.pid, Some(9));
            assert!(answer.error.is_none());
        }
        _ => panic!("one datagram expected"),
    }
    match flow.answer(Some("clone3 failed: x".to_string())).as_slice() {
        [AnswerStep::Datagram(RunReply::Refused(answer))] => {
            assert!(!answer.ok);
            assert_eq!(answer.error, "clone3 failed: x");
        }
        _ => panic!("one datagram expected"),
    }
    let flow = RunFlow::new(true, true, false);
    match flow.answer(None).as_slice() {
        [AnswerStep::Frame { ty: 0x01, reply: RunReply::Started(_) }, AnswerStep::RelayOutput] => {}
        _ => panic!("a frame, then output expected"),
    }
    match flow.answer(Some("no".to_string())).as_slice() {
        [AnswerStep::Frame { ty: 0x01, reply: RunReply::Refused(answer) }, AnswerStep::CloseSession] => {
            assert_eq!(answer.error, "no");
        }
        _ => panic!("a frame, then the end expected"),
    }
}

#[test]
fn child_is_held_back_until_its_maps_are_written() {
    let signal = pair(60, 61);
    assert!(sync_steps(signal, false, false).is_empty());
    assert_eq!(
        sync_steps(signal, true, false),
        vec![
            SyncStep::Close { fd: 60 },
            SyncStep::Release { fd: 61 },
            SyncStep::Close { fd: 61 },
        ]
    );
    let closed = vec![SyncStep::Close { fd: 60 }, SyncStep::Close { fd: 61 }];
    assert_eq!(sync_steps(signal, true, true), closed);
    assert_eq!(sync_steps(signal, false, true), closed);
}
