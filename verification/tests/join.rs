use std::future::{self, Future};
use std::pin::Pin;
use std::sync::Arc;
use std::task::{Context, Poll, Wake, Waker};

use futures_concurrency::future::common::tuple::{TupleMaybeReturn, TupleWhenCompleted};
use futures_concurrency::future::common::CombinatorSlots;
use futures_concurrency::future::join::array::Join as ArrayJoin;
use futures_concurrency::future::join::vec::Join as VecJoin;
use futures_concurrency::future::join::JoinBehavior;
use futures_concurrency::join::array::Join as WakeJoin;
use futures_concurrency::join::vec::Join as DoneJoin;
use futures_concurrency::utils::PollState;

struct DummyWaker;

impl Wake for DummyWaker {
    fn wake(self: Arc<Self>) {}
}

fn poll_once<F: Future + Unpin>(fut: &mut F) -> Poll<F::Output> {
    let waker = Waker::from(Arc::new(DummyWaker));
    let mut cx = Context::from_waker(&waker);
    Pin::new(fut).poll(&mut cx)
}

/// One poll of an array join over `futs`.
fn poll_array_join<F: Future + Unpin, const N: usize>(
    join: &mut ArrayJoin<F::Output, N>,
    futs: &mut [F; N],
) -> Poll<[F::Output; N]> {
    if !join.poll_begin() {
        return Poll::Pending;
    }
    for i in 0..N {
        if join.can_progress(i) {
            if let Poll::Ready(out) = poll_once(&mut futs[i]) {
                join.on_ready(i, out);
            }
        }
    }
    match join.poll_end() {
        Some(out) => Poll::Ready(out),
        None => Poll::Pending,
    }
}

/// One poll of a vec join over `futs`.
fn poll_vec_join<F: Future + Unpin>(join: &mut VecJoin<F::Output>, futs: &mut [F]) -> Poll<Vec<F::Output>> {
    join.poll_begin();
    while let Some(i) = join.next_awake() {
        if let Poll::Ready(out) = poll_once(&mut futs[i]) {
            if let Some(done) = join.on_ready(i, out) {
                return Poll::Ready(done);
            }
        }
    }
    match join.poll_end() {
        Some(out) => Poll::Ready(out),
        None => Poll::Pending,
    }
}

#[test]
fn debug() {
    let mut futs = [future::ready("hello"), future::ready("world")];
    let mut fut: ArrayJoin<&str, 2> = ArrayJoin::new();
    assert_eq!(format!("{:?}", fut.state_list()), "[Pending, Pending]");
    let _ = poll_array_join(&mut fut, &mut futs);
    assert_eq!(format!("{:?}", fut.state_list()), "[Consumed, Consumed]");
}

#[test]
fn array_smoke() {
    let mut futs = [future::ready("hello"), future::ready("world")];
    let mut fut: ArrayJoin<&str, 2> = ArrayJoin::new();
    assert_eq!(poll_array_join(&mut fut, &mut futs), Poll::Ready(["hello", "world"]));
}

#[test]
fn vec_smoke() {
    let mut futs = vec![future::ready("hello"), future::ready("world")];
    let mut fut: VecJoin<&str> = VecJoin::new(2);
    assert_eq!(poll_vec_join(&mut fut, &mut futs), Poll::Ready(vec!["hello", "world"]));
}

#[test]
fn join_1() {
    let mut a = future::ready("hello");
    let mut slots = CombinatorSlots::new(1);
    let mut item_a = None;
    slots.begin();
    while let Some(i) = slots.next_awake() {
        assert_eq!(i, 0);
        if let Poll::Ready(v) = poll_once(&mut a) {
            let stored: Result<&str, (&str,)> = <JoinBehavior as TupleMaybeReturn<&str, (&str,)>>::maybe_return(0, v);
            item_a = Some(stored.unwrap());
            slots.fill(0);
        }
    }
    assert!(slots.complete());
    let out = <JoinBehavior as TupleWhenCompleted<(&str,), (&str,)>>::when_completed((item_a.unwrap(),));
    assert_eq!(out, ("hello",));
}

#[test]
fn join_2() {
    let mut a = future::ready("hello");
    let mut b = future::ready(12);
    let mut slots = CombinatorSlots::new(2);
    let (mut item_a, mut item_b) = (None, None);
    slots.begin();
    while let Some(i) = slots.next_awake() {
        match i {
            0 => {
                if let Poll::Ready(v) = poll_once(&mut a) {
                    let stored: Result<&str, (&str, i32)> = <JoinBehavior as TupleMaybeReturn<&str, (&str, i32)>>::maybe_return(0, v);
                    item_a = Some(stored.unwrap());
                    slots.fill(0);
                }
            },
            _ => {
                if let Poll::Ready(v) = poll_once(&mut b) {
                    let stored: Result<i32, (&str, i32)> = <JoinBehavior as TupleMaybeReturn<i32, (&str, i32)>>::maybe_return(1, v);
                    item_b = Some(stored.unwrap());
                    slots.fill(1);
                }
            },
        }
    }
    assert!(slots.complete());
    let out = <JoinBehavior as TupleWhenCompleted<(&str, i32), (&str, i32)>>::when_completed((item_a.unwrap(), item_b.unwrap()));
    assert_eq!(out, ("hello", 12));
}

#[test]
fn join_3() {
    let mut a = future::ready("hello");
    let mut b = future::ready("world");
    let mut c = future::ready(12);
    let mut slots = CombinatorSlots::new(3);
    let (mut item_a, mut item_b, mut item_c) = (None, None, None);
    slots.begin();
    while let Some(i) = slots.next_awake() {
        match i {
            0 => {
                if let Poll::Ready(v) = poll_once(&mut a) {
                    item_a = Some(v);
                    slots.fill(0);
                }
            },
            1 => {
                if let Poll::Ready(v) = poll_once(&mut b) {
                    item_b = Some(v);
                    slots.fill(1);
                }
            },
            _ => {
                if let Poll::Ready(v) = poll_once(&mut c) {
                    item_c = Some(v);
                    slots.fill(2);
                }
            },
        }
    }
    assert_eq!(slots.pending_exec(), 0);
    assert!(slots.complete());
    let out = <JoinBehavior as TupleWhenCompleted<(&str, &str, i32), (&str, &str, i32)>>::when_completed((
        item_a.unwrap(),
        item_b.unwrap(),
        item_c.unwrap(),
    ));
    assert_eq!(out, ("hello", "world", 12));
}

#[test]
fn join_outputs_in_child_order_whatever_the_completion_order() {
    let mut fut: ArrayJoin<&str, 3> = ArrayJoin::new();
    assert!(fut.poll_begin());
    assert!(fut.can_progress(2));
    fut.on_ready(2, "c");
    assert!(fut.can_progress(0));
    fut.on_ready(0, "a");
    assert!(fut.can_progress(1));
    assert_eq!(fut.poll_end(), None);
    fut.on_ready(1, "b");
    assert_eq!(fut.poll_end(), Some(["a", "b", "c"]));
    assert_eq!(fut.state_list(), vec![PollState::Consumed; 3]);
}

#[test]
fn join_polls_only_woken_children() {
    let mut fut: ArrayJoin<u8, 2> = ArrayJoin::new();
    assert!(fut.poll_begin());
    assert!(fut.can_progress(0));
    assert!(fut.can_progress(1));
    assert!(!fut.poll_begin());
    assert!(!fut.can_progress(0));
    fut.wake(1);
    assert!(fut.poll_begin());
    assert!(!fut.can_progress(0));
    assert!(fut.can_progress(1));
    assert_eq!(fut.pending_indexes(), vec![0, 1]);
}

#[test]
fn vec_join_of_nothing_completes_at_once() {
    let mut fut: VecJoin<u8> = VecJoin::new(0);
    assert_eq!(fut.poll_end(), Some(vec![]));
}

#[test]
fn done_join_keeps_child_order() {
    let mut fut: DoneJoin<u32> = DoneJoin::new(3);
    fut.on_ready(1, 20);
    assert_eq!(fut.poll_end(), None);
    fut.on_ready(2, 30);
    fut.on_ready(0, 10);
    assert_eq!(fut.poll_end(), Some(vec![10, 20, 30]));
}

#[test]
fn wake_list_join_polls_each_woken_child_once() {
    let mut fut: WakeJoin<u8, 3> = WakeJoin::new();
    assert_eq!(fut.next_to_poll(), Some(0));
    fut.on_ready(0, 10);
    assert_eq!(fut.next_to_poll(), Some(1));
    assert_eq!(fut.next_to_poll(), Some(2));
    fut.on_ready(2, 30);
    assert_eq!(fut.next_to_poll(), None);
    assert_eq!(fut.poll_end(), None);
    // child 1 wakes twice before the next poll: it is queued once, and only
    // the first wake asks for the parent to be woken
    assert!(fut.wake(1));
    assert!(!fut.wake(1));
    assert_eq!(fut.next_to_poll(), Some(1));
    assert_eq!(fut.next_to_poll(), None);
    assert!(fut.is_running(1));
    fut.on_ready(1, 20);
    assert_eq!(fut.poll_end(), Some([10, 20, 30]));
}

#[test]
fn wake_list_join_takes_last_woken_first() {
    let mut fut: WakeJoin<u8, 3> = WakeJoin::new();
    while fut.next_to_poll().is_some() {}
    assert!(fut.wake(0));
    assert!(!fut.wake(2));
    assert_eq!(fut.next_to_poll(), Some(2));
    assert_eq!(fut.next_to_poll(), Some(0));
    assert_eq!(fut.next_to_poll(), None);
}

#[test]
fn array_join_of_nothing_completes_at_once() {
    let mut futs: [future::Ready<u8>; 0] = [];
    let mut fut: ArrayJoin<u8, 0> = ArrayJoin::new();
    assert_eq!(poll_array_join(&mut fut, &mut futs), Poll::Ready([]));
}
