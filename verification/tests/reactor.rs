use conrt::daemon::sessions::ClientFrame;
use conrt::frame::build_frame;
use conrt::protocol::Request;
use conrt::reactor::ops::Op;
use conrt::reactor::receive::ReceiveStep;
use conrt::reactor::route::route;
use conrt::reactor::route::Route;
use conrt::reactor::route::ACCEPT;
use conrt::reactor::route::BACKLOG_WRITE;
use conrt::reactor::route::FOLLOW_FD;
use conrt::reactor::route::PIPE_WRITE;
use conrt::reactor::route::STREAM_READ;
use conrt::reactor::Next;
use conrt::reactor::Reactor;
use conrt::sys::FdPair;

/// Operations in a form that can be compared.
fn show(ops: &[Op]) -> Vec<String> {
    ops.iter()
        .map(|op| match op {
            Op::Read { fd, len, route } => format!("read {fd} {len} {route:?}"),
            Op::Write { fd, bytes, route } => format!("write {fd} {bytes:?} {route:?}"),
            Op::Send { fd, bytes } => format!("send {fd} {bytes:?}"),
            Op::PassFd { fd, route } => format!("pass {fd} {route:?}"),
            Op::Accept => "accept".to_string(),
            Op::Resize { fd, rows, cols } => format!("resize {fd} {rows} {cols}"),
            Op::Close { fd } => format!("close {fd}"),
        })
        .collect()
}

/// A reactor with one session that has started container 7 with a PTY.
fn attached() -> Reactor {
    let mut r = Reactor::new();
    r.complete(ACCEPT, 20, &[]);
    r.sessions.run_started(0, 7, 40, -1, b"{}");
    r.board
        .add_container(7, "sh".to_string(), Some("/o".to_string()), false, 0);
    r
}

#[test]
fn numbers_find_their_handler() {
    let routes = [
        Route::Datagram,
        Route::Signal,
        Route::FollowFd(5),
        Route::Backlog(5),
        Route::PipeWrite(5),
        Route::Accept,
        Route::StreamRead(5),
        Route::StreamWrite(5),
        Route::PtyRead(5),
        Route::PtyWrite(5),
        Route::Output(5),
    ];
    for r in routes {
        assert_eq!(route(r.number()), r);
    }
    // Ids too large for the marks are not told apart from them.
    assert_eq!(route(ACCEPT | 1), Route::Output(ACCEPT | 1));
    assert_eq!(route(FOLLOW_FD | BACKLOG_WRITE | 3), Route::FollowFd(3));
    assert_eq!(route(PIPE_WRITE | STREAM_READ | 3), Route::PipeWrite(STREAM_READ | 3));
}

#[test]
fn datagrams_are_sized_then_taken() {
    let mut r = Reactor::new();
    let out = r.complete(0, 70000, &[]);
    assert!(matches!(
        out.next,
        Next::Receive(ReceiveStep::Take { buffer: 70000 })
    ));
    let out = r.complete(0, 70000, &[]);
    assert!(matches!(
        out.next,
        Next::Receive(ReceiveStep::Request { len: 70000 })
    ));
    let out = r.complete(0, 5, &[]);
    assert!(matches!(
        out.next,
        Next::Receive(ReceiveStep::Take { buffer: 70000 })
    ));
    let out = r.complete(0, -11, &[]);
    assert!(matches!(out.next, Next::Receive(ReceiveStep::Ask)));
}

#[test]
fn signals_ask_for_reaping() {
    let mut r = Reactor::new();
    assert!(matches!(
        r.complete(1, 128, &[]).next,
        Next::Signal { reap: true }
    ));
    assert!(matches!(
        r.complete(1, -4, &[]).next,
        Next::Signal { reap: false }
    ));
}

#[test]
fn clients_are_accepted_and_read() {
    let mut r = Reactor::new();
    assert_eq!(show(&r.complete(ACCEPT, -11, &[]).ops), ["accept"]);
    assert_eq!(
        show(&r.complete(ACCEPT, 20, &[]).ops),
        ["read 20 3 StreamRead(0)", "accept"]
    );
    let out = r.complete(STREAM_READ, 3, b"\x00\x02\x00");
    assert_eq!(show(&out.ops), ["read 20 2 StreamRead(0)"]);
    let out = r.complete(STREAM_READ, 2, b"{}");
    match out.next {
        Next::Frame {
            session,
            ty,
            payload,
        } => {
            assert_eq!((session, ty), (0, 0));
            assert_eq!(payload, b"{}");
        }
        _ => panic!("a frame expected"),
    }
    // No container can be started from this, so the session ends.
    let outcome = r
        .sessions
        .dispatch_frame(0, ClientFrame::Request(Some(Request::List)));
    assert!(outcome.run.is_none());
    assert_eq!(show(&outcome.ops), ["close 20"]);
    assert!(r.complete(STREAM_READ, 3, b"\x11\x00\x00").ops.is_empty());
}

#[test]
fn refused_runs_are_answered_before_the_close() {
    let mut r = Reactor::new();
    r.complete(ACCEPT, 20, &[]);
    let reply = build_frame(0x01, b"no");
    assert_eq!(
        show(&r.sessions.run_failed(0, b"no")),
        [format!("send 20 {reply:?}"), "close 20".to_string()]
    );
    assert!(r.sessions.run_failed(0, b"no").is_empty());
}

#[test]
fn client_input_goes_to_the_pty() {
    let mut r = attached();
    let out = r
        .sessions
        .dispatch_frame(0, ClientFrame::Data(b"ls".to_vec()));
    assert_eq!(
        show(&out.ops),
        [
            "write 40 [108, 115] PtyWrite(0)",
            "read 20 3 StreamRead(0)"
        ]
    );
    let out = r
        .sessions
        .dispatch_frame(0, ClientFrame::WinSize(Some((24, 80))));
    assert_eq!(
        show(&out.ops),
        ["resize 40 24 80", "read 20 3 StreamRead(0)"]
    );
    let out = r.sessions.dispatch_frame(0, ClientFrame::WinSize(None));
    assert_eq!(show(&out.ops), ["read 20 3 StreamRead(0)"]);
    let out = r.sessions.dispatch_frame(0, ClientFrame::StdinEof);
    assert_eq!(show(&out.ops), ["close 40", "read 20 3 StreamRead(0)"]);
    let out = r.sessions.dispatch_frame(0, ClientFrame::Unknown);
    assert_eq!(show(&out.ops), ["close 20"]);
}

#[test]
fn output_waits_for_the_client() {
    let mut r = attached();
    let number = Route::StreamWrite(0).number();
    assert_eq!(
        show(&r.complete(number, 5, &[]).ops),
        ["read 40 4096 PtyRead(0)"]
    );
    let frame = build_frame(0x10, b"out");
    assert_eq!(
        show(&r.complete(Route::PtyRead(0).number(), 3, b"out").ops),
        [format!("write 20 {frame:?} StreamWrite(0)")]
    );
    // The child exits while that write is under way.
    let exit = build_frame(0x02, b"{\"exit_code\":3}");
    let reaped = r.reap_child(7, b"{\"exit_code\":3}");
    assert_eq!(reaped.told, Some(0));
    assert_eq!(reaped.cleanup.as_deref(), Some("/o"));
    assert!(reaped.ops.is_empty());
    assert_eq!(
        show(&r.complete(number, 6, &[]).ops),
        [format!("write 20 {exit:?} StreamWrite(0)")]
    );
    // Output that is left is delivered before the session ends.
    assert_eq!(
        show(&r.complete(number, 6, &[]).ops),
        ["read 40 4096 PtyRead(0)"]
    );
    assert_eq!(
        show(&r.complete(Route::PtyRead(0).number(), 0, &[]).ops),
        ["close 40", "close 20"]
    );
}

#[test]
fn exit_is_told_at_once_on_an_idle_stream() {
    let mut r = attached();
    r.complete(Route::StreamWrite(0).number(), 5, &[]);
    let exit = build_frame(0x02, b"x");
    assert_eq!(
        show(&r.reap_child(7, b"x").ops),
        [format!("write 20 {exit:?} StreamWrite(0)")]
    );
    // It is not told again when that write has ended.
    assert_eq!(
        show(&r.complete(Route::StreamWrite(0).number(), 5, &[]).ops),
        ["read 40 4096 PtyRead(0)"]
    );
}

#[test]
fn broken_pty_is_closed() {
    let mut r = attached();
    assert_eq!(
        show(&r.complete(Route::PtyWrite(0).number(), -5, &[]).ops),
        ["close 40"]
    );
    assert!(r
        .complete(Route::PtyWrite(0).number(), -5, &[])
        .ops
        .is_empty());
    assert_eq!(
        show(&r.complete(Route::StreamWrite(0).number(), -32, &[]).ops),
        ["close 20"]
    );
}

/// A reactor with detached container 9, whose output is number 2.
fn detached() -> Reactor {
    let mut r = Reactor::new();
    let id = r.board.reserve_output();
    assert_eq!(id, 2);
    assert_eq!(
        show(&r.board.add_output(id, 9, 50)),
        ["read 50 4096 Output(2)"]
    );
    r.board
        .add_container(9, "sh".to_string(), None, false, 3);
    r
}

#[test]
fn lines_reach_the_log_and_the_followers() {
    let mut r = detached();
    let start = r.board.begin_follow(9).ok().unwrap();
    assert!(start.backlog.is_empty());
    let ops = r
        .board
        .finish_follow(
            start,
            Ok(FdPair {
                read: 60,
                write: 61,
            }),
        )
        .ok()
        .unwrap();
    assert_eq!(show(&ops), ["read 50 4096 Output(2)", "pass 60 FollowFd(0)"]);
    assert_eq!(show(&r.complete(FOLLOW_FD, 0, &[]).ops), ["close 60"]);
    assert_eq!(
        show(&r.complete(2, 5, b"a\nb\nc").ops),
        ["write 61 [97, 10] PipeWrite(0)", "read 50 4096 Output(2)"]
    );
    // The pipe is free again once its write ended.
    assert!(r.complete(PIPE_WRITE, 2, &[]).ops.is_empty());
    assert_eq!(
        show(&r.complete(2, 1, b"\n").ops),
        ["write 61 [99, 10] PipeWrite(0)", "read 50 4096 Output(2)"]
    );
    assert_eq!(show(&r.complete(PIPE_WRITE, -32, &[]).ops), ["close 61"]);
    assert!(r.complete(PIPE_WRITE, -32, &[]).ops.is_empty());
    assert_eq!(r.board.handle_logs(9).ok().unwrap(), ["a", "b", "c"]);
    let rows = r.board.handle_list();
    assert_eq!(rows.len(), 1);
    assert_eq!((rows[0].pid, rows[0].start_time), (9, 3));
    assert!(r.board.handle_kill(9).is_ok());
    // The log stays when the container goes, and late lines are added to it.
    let reaped = r.reap_child(9, b"");
    assert_eq!(reaped.told, None);
    r.complete(2, 2, b"d\n");
    assert_eq!(show(&r.complete(2, 0, &[]).ops), ["close 50"]);
    assert!(r.complete(2, 0, &[]).ops.is_empty());
    assert_eq!(r.board.handle_logs(9).ok().unwrap(), ["a", "b", "c", "d"]);
    assert!(r.board.handle_kill(9).is_err());
    assert!(r.board.handle_list().is_empty());
}

#[test]
fn followers_that_cannot_be_served_are_told() {
    let mut r = detached();
    assert_eq!(
        r.board.begin_follow(8).err().unwrap().error,
        "container 8 not found"
    );
    assert_eq!(
        r.board.handle_logs(8).err().unwrap().error,
        "container 8 not found"
    );
    assert_eq!(
        r.board.handle_kill(8).err().unwrap().error.as_deref(),
        Some("container 8 not found")
    );
    r.complete(2, 2, b"x\n");
    let start = r.board.begin_follow(9).ok().unwrap();
    let err = r
        .board
        .finish_follow(start, Err("EMFILE".to_string()))
        .err()
        .unwrap();
    assert_eq!(err.error, "pipe creation failed: EMFILE");
    // The lock is gone, so output is read on.
    assert_eq!(
        show(&r.complete(2, 1, b"y").ops),
        ["read 50 4096 Output(2)"]
    );
    let start = r.board.begin_follow(9).ok().unwrap();
    let id = start.id;
    let pipe = FdPair {
        read: 60,
        write: 61,
    };
    assert_eq!(
        show(&r.board.finish_follow(start, Ok(pipe)).ok().unwrap()),
        ["write 61 [120, 10] Backlog(1)"]
    );
    assert_eq!(
        show(&r.complete(BACKLOG_WRITE | id, -32, &[]).ops),
        ["close 61", "close 60"]
    );
    assert!(r.complete(BACKLOG_WRITE | id, 2, &[]).ops.is_empty());
}

#[test]
fn pipes_of_a_gone_container_are_forgotten() {
    let mut r = detached();
    let start = r.board.begin_follow(9).ok().unwrap();
    let pipe = FdPair {
        read: 60,
        write: 61,
    };
    r.board.finish_follow(start, Ok(pipe)).ok().unwrap();
    assert_eq!(show(&r.reap_child(9, b"").ops), ["close 61"]);
    assert!(r.complete(PIPE_WRITE, -32, &[]).ops.is_empty());
}
