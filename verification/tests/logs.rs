use conrt::log::AsyncPipeWriter;
use conrt::log::LogCache;
use conrt::log::LogGateway;
use conrt::reactor::board::Board;
use conrt::reactor::ops::Op;
use conrt::reactor::route::Route;
use conrt::sys::FdPair;

#[test]
fn log_cache_starts_unlocked() {
    let c = LogCache::new(64);
    assert!(c.is_empty());
}

#[test]
fn log_cache_push_and_snapshot() {
    let mut c = LogCache::new(4096);
    c.push(b"hello");
    c.push(b"world");
    let snap = c.snapshot();
    assert_eq!(snap, b"hello\nworld\n");
}

#[test]
fn log_cache_collect_lines_non_destructive() {
    let mut c = LogCache::new(4096);
    c.push(b"foo");
    c.push(b"bar");
    let lines = c.collect_lines();
    assert_eq!(lines, &["foo", "bar"]);
    // Everything is still there afterwards.
    let snap = c.snapshot();
    assert_eq!(snap, b"foo\nbar\n");
}

#[test]
fn log_cache_empty() {
    let c = LogCache::new(64);
    assert!(c.snapshot().is_empty());
    assert!(c.collect_lines().is_empty());
}

#[test]
fn log_cache_evicts_oldest_when_full() {
    let mut c = LogCache::new(16);
    c.push(b"aaaa");
    c.push(b"bbbb");
    c.push(b"cccc");
    // 5 bytes are needed and 1 is free, so the oldest line goes.
    c.push(b"dddd");
    let raw = c.snapshot();
    let snap = String::from_utf8_lossy(&raw);
    assert!(
        !snap.contains("aaaa"),
        "oldest line should be evicted: {snap:?}"
    );
    assert!(snap.contains("bbbb"), "bbbb should survive: {snap:?}");
    assert!(snap.contains("cccc"), "cccc should survive: {snap:?}");
    assert!(snap.contains("dddd"), "dddd should survive: {snap:?}");
}

#[test]
fn log_cache_wraparound() {
    let mut c = LogCache::new(16);
    c.push(b"aaaa");
    c.push(b"bbbb");
    c.push(b"cccc");
    c.push(b"dddd");
    let lines = c.collect_lines();
    assert_eq!(lines, &["bbbb", "cccc", "dddd"], "got {lines:?}");
    c.push(b"eeee");
    let lines = c.collect_lines();
    assert_eq!(lines, &["cccc", "dddd", "eeee"], "got {lines:?}");
}

#[test]
fn log_cache_takes_a_line_as_long_as_it_is() {
    let mut c = LogCache::new(8);
    c.push(b"ab");
    c.push(b"1234567");
    assert_eq!(c.snapshot(), b"1234567\n");
    c.push(b"");
    assert_eq!(c.snapshot(), b"\n");
    assert_eq!(c.collect_lines(), &[""]);
}

#[test]
fn log_lines_that_are_not_text_are_replaced() {
    let mut c = LogCache::new(64);
    c.push(&[b'a', 0xff, b'b']);
    assert_eq!(c.collect_lines(), &["a\u{fffd}b"]);
    assert_eq!(c.snapshot(), &[b'a', 0xff, b'b', b'\n']);
}

#[test]
fn log_gateway_starts_empty() {
    let g = LogGateway::new(64);
    assert!(g.pipes.is_empty());
    // A container that just started is not locked: its output is read on.
    let mut board = Board::new();
    board.add_container(7, "sh".to_string(), None, false, 0);
    let id = board.reserve_output();
    board.add_output(id, 7, 3);
    let out = board.handle_output(id, 1, b"x");
    assert!(matches!(out.as_slice(), [Op::Read { fd: 3, .. }]));
}

#[test]
fn log_gateway_attach_multiple_pipes() {
    let mut g = LogGateway::new(64);
    g.pipes.push(AsyncPipeWriter::new(1, 10));
    g.pipes.push(AsyncPipeWriter::new(2, 11));
    assert_eq!(g.pipes.len(), 2);
}

#[test]
fn log_gateway_push_marks_idle_pipes_in_flight() {
    let mut g = LogGateway::new(4096);
    g.pipes.push(AsyncPipeWriter::new(1, 10));
    g.pipes.push(AsyncPipeWriter::new(2, 11));
    let ids = g.push(b"hello");
    assert_eq!(ids, &[1, 2]);
    assert!(g.pipes[0].in_flight);
    assert!(g.pipes[1].in_flight);
    assert_eq!(g.cache.snapshot(), b"hello\n");
    // A second push skips both in-flight pipes.
    let ids = g.push(b"world");
    assert!(ids.is_empty());
}

#[test]
fn log_gateway_complete_write_alive_pipe() {
    let mut g = LogGateway::new(64);
    g.pipes.push(AsyncPipeWriter::new(1, 10));
    assert_eq!(g.complete_write(1, true), None);
    assert_eq!(g.pipes.len(), 1);
    assert!(!g.pipes[0].in_flight);
}

#[test]
fn log_gateway_complete_write_removes_dead_pipe() {
    let mut g = LogGateway::new(64);
    g.pipes.push(AsyncPipeWriter::new(1, 10));
    let ids = g.push(b"hello");
    assert_eq!(ids, &[1]);
    // The write failed: the pipe is gone, and its descriptor is to be closed.
    assert_eq!(g.complete_write(1, false), Some(10));
    assert!(g.pipes.is_empty());
    assert!(g.pipe_fd(1).is_none());
}

#[test]
fn log_gateway_complete_write_unknown_id_does_nothing() {
    let mut g = LogGateway::new(64);
    g.pipes.push(AsyncPipeWriter::new(1, 10));
    assert_eq!(g.complete_write(999, true), None);
    assert_eq!(g.pipes.len(), 1);
    assert_eq!(g.complete_write(999, false), None);
    assert_eq!(g.pipes.len(), 1);
}

#[test]
fn log_gateway_close_all_pipes() {
    let mut g = LogGateway::new(64);
    g.pipes.push(AsyncPipeWriter::new(1, 10));
    g.pipes.push(AsyncPipeWriter::new(2, 11));
    assert_eq!(g.close_all_pipes(), &[10, 11]);
    assert!(g.pipes.is_empty());
}

#[test]
fn log_gateway_lock_count_blocks_check() {
    let mut board = Board::new();
    board.add_container(7, "sh".to_string(), None, false, 0);
    let id = board.reserve_output();
    board.add_output(id, 7, 3);
    assert!(matches!(
        board.handle_output(id, 3, b"up\n").as_slice(),
        [Op::Read { fd: 3, .. }]
    ));
    let start = board.begin_follow(7).ok().unwrap();
    assert_eq!(start.backlog, b"up\n");
    // While the backlog is being written no more output is read.
    assert!(board.handle_output(id, 3, b"on\n").is_empty());
    let follow = start.id;
    let ops = board
        .finish_follow(
            start,
            Ok(FdPair {
                read: 20,
                write: 21,
            }),
        )
        .ok()
        .unwrap();
    match ops.as_slice() {
        [Op::Write { fd, bytes, route }] => {
            assert_eq!(*fd, 21);
            assert_eq!(bytes, b"up\n");
            assert_eq!(*route, Route::Backlog(follow));
        }
        _ => panic!("one write expected"),
    }
    // Then reading goes on, and the follower is handed its end of the pipe.
    let ops = board.complete_backlog_write(follow, 3);
    match ops.as_slice() {
        [Op::Read { fd: 3, .. }, Op::PassFd { fd, route }] => {
            assert_eq!(*fd, 20);
            assert_eq!(*route, Route::FollowFd(follow));
        }
        _ => panic!("a read and a message expected"),
    }
    assert_eq!(board.handle_output(id, 1, b"x").len(), 1);
}

#[test]
fn log_gateway_write_goes_to_all_pipes() {
    let mut g = LogGateway::new(4096);
    g.pipes.push(AsyncPipeWriter::new(1, 10));
    g.pipes.push(AsyncPipeWriter::new(2, 11));
    g.push(b"hello");
    assert_eq!(g.cache.snapshot(), b"hello\n");
    assert!(g.pipes[0].in_flight);
    assert!(g.pipes[1].in_flight);
}

#[test]
fn log_gateway_write_skips_in_flight_pipe() {
    let mut g = LogGateway::new(4096);
    g.pipes.push(AsyncPipeWriter::new(1, 10));
    g.pipes.push(AsyncPipeWriter::new(2, 11));
    g.pipes[0].in_flight = true;
    let ids = g.push(b"world");
    assert_eq!(ids, &[2]);
    assert_eq!(g.cache.snapshot(), b"world\n");
    assert!(g.pipes[0].in_flight);
    assert!(g.pipes[1].in_flight);
}

#[test]
fn failed_write_swaps_in_the_last_pipe() {
    let mut g = LogGateway::new(64);
    g.pipes.push(AsyncPipeWriter::new(1, 10));
    g.pipes.push(AsyncPipeWriter::new(2, 11));
    g.pipes.push(AsyncPipeWriter::new(3, 12));
    assert_eq!(g.complete_write(1, false), Some(10));
    assert_eq!(g.pipes[0].id, 3);
    assert_eq!(g.pipes[1].id, 2);
    assert_eq!(g.pipe_fd(3), Some(12));
}
