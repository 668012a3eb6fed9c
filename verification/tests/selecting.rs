use std::future::Future;
use std::pin::Pin;
use std::task::Context;
use std::task::Poll;
use std::task::Waker;

use conrt::coio::select::select2;
use conrt::coio::select::select3;

type Pinned<T> = Pin<Box<dyn Future<Output = T>>>;

fn poll_once<T>(mut future: Pinned<T>) -> (Pinned<T>, Option<T>) {
    let mut cx = Context::from_waker(Waker::noop());
    match future.as_mut().poll(&mut cx) {
        Poll::Ready(value) => (future, Some(value)),
        Poll::Pending => (future, None),
    }
}

fn ready(value: i32) -> Pinned<i32> {
    Box::pin(std::future::ready(value))
}

fn pending() -> Pinned<i32> {
    Box::pin(std::future::pending::<i32>())
}

#[test]
fn select2_left_bias_when_both_ready() {
    let s = select2(ready(1), ready(2));
    match s.poll(poll_once, poll_once) {
        Ok(out) => {
            assert_eq!(out.first, Some(1));
            assert_eq!(out.second, None);
            // The other one was not polled and can be polled still.
            assert_eq!(poll_once(out.b).1, Some(2));
        }
        Err(_) => panic!("both ready: select2 must resolve immediately"),
    }
}

#[test]
fn select2_second_wins_when_first_pending() {
    let s = select2(pending(), ready(2));
    match s.poll(poll_once, poll_once) {
        Ok(out) => {
            assert_eq!(out.first, None);
            assert_eq!(out.second, Some(2));
        }
        Err(_) => panic!("b ready: select2 must resolve immediately"),
    }
}

#[test]
fn select2_both_pending_returns_pending() {
    let s = select2(pending(), pending());
    assert!(s.poll(poll_once, poll_once).is_err());
}

#[test]
fn select3_left_bias_and_pending() {
    let s = select3(ready(1), ready(2), pending());
    match s.poll(poll_once, poll_once, poll_once) {
        Ok(out) => {
            assert_eq!(out.first, Some(1));
            assert_eq!(out.second, None);
            assert_eq!(out.third, None);
        }
        Err(_) => panic!("a and b ready: select3 must resolve immediately"),
    }
    assert!(
        select3(pending(), pending(), pending())
            .poll(poll_once, poll_once, poll_once)
            .is_err()
    );
}
