//! The same log behaviour, seen through the gateway that a container writes to.

use conrt::log::AsyncPipeWriter;
use conrt::log::LogGateway;

#[test]
fn daemon_log_cache_starts_unlocked() {
    let g = LogGateway::new(64);
    assert!(g.cache.is_empty());
}

#[test]
fn daemon_log_cache_push_and_snapshot() {
    let mut g = LogGateway::new(4096);
    g.push(b"hello");
    g.push(b"world");
    let snap = g.snapshot();
    assert_eq!(snap, b"hello\nworld\n");
}

#[test]
fn daemon_log_cache_collect_lines_non_destructive() {
    let mut g = LogGateway::new(4096);
    g.push(b"foo");
    g.push(b"bar");
    let lines = g.collect_lines();
    assert_eq!(lines, &["foo", "bar"]);
    let snap = g.snapshot();
    assert_eq!(snap, b"foo\nbar\n");
}

#[test]
fn daemon_log_cache_empty() {
    let g = LogGateway::new(64);
    assert!(g.snapshot().is_empty());
    assert!(g.collect_lines().is_empty());
}

#[test]
fn daemon_log_cache_evicts_oldest_when_full() {
    let mut g = LogGateway::new(16);
    g.push(b"aaaa");
    g.push(b"bbbb");
    g.push(b"cccc");
    g.push(b"dddd");
    let raw = g.snapshot();
    let snap = String::from_utf8_lossy(&raw);
    assert!(
        !snap.contains("aaaa"),
        "oldest line should be evicted: {snap:?}"
    );
    assert!(snap.contains("bbbb"), "bbbb should survive: {snap:?}");
    assert!(snap.contains("cccc"), "cccc should survive: {snap:?}");
    assert!(snap.contains("dddd"), "dddd should survive: {snap:?}");
}

#[test]
fn daemon_log_cache_wraparound() {
    let mut g = LogGateway::new(16);
    g.push(b"aaaa");
    g.push(b"bbbb");
    g.push(b"cccc");
    g.push(b"dddd");
    let lines = g.collect_lines();
    assert_eq!(lines, &["bbbb", "cccc", "dddd"], "got {lines:?}");
    g.push(b"eeee");
    let lines = g.collect_lines();
    assert_eq!(lines, &["cccc", "dddd", "eeee"], "got {lines:?}");
}

#[test]
fn daemon_log_gateway_starts_empty() {
    let g = LogGateway::new(64);
    assert!(g.pipes.is_empty());
}

#[test]
fn daemon_log_gateway_attach_multiple_pipes() {
    let mut g = LogGateway::new(64);
    g.pipes.push(AsyncPipeWriter::new(1, 10));
    g.pipes.push(AsyncPipeWriter::new(2, 11));
    assert_eq!(g.pipes.len(), 2);
}

#[test]
fn daemon_log_gateway_complete_write_removes_dead_pipe() {
    let mut g = LogGateway::new(64);
    g.pipes.push(AsyncPipeWriter::new(1, 10));
    assert_eq!(g.complete_write(1, false), Some(10));
    assert!(g.pipes.is_empty());
}

#[test]
fn daemon_log_gateway_complete_write_unknown_id_does_nothing() {
    let mut g = LogGateway::new(64);
    g.pipes.push(AsyncPipeWriter::new(1, 10));
    g.complete_write(999, true);
    assert_eq!(g.pipes.len(), 1);
}

#[test]
fn daemon_log_gateway_close_all_pipes() {
    let mut g = LogGateway::new(64);
    g.pipes.push(AsyncPipeWriter::new(1, 10));
    g.pipes.push(AsyncPipeWriter::new(2, 11));
    g.close_all_pipes();
    assert!(g.pipes.is_empty());
}
