use std::future::{self, Future};
use std::ops::ControlFlow;
use std::pin::Pin;
use std::sync::Arc;
use std::task::{Context, Poll, Wake, Waker};

use futures_concurrency::collections::group_inner::{GroupInner, GROUP_GROWTH_FACTOR};
use futures_concurrency::collections::inner_group::{grow_group_capacity, InnerGroup, Key, PollAgain, PollStart};
use futures_concurrency::future::future_group::FutureGroup;
use futures_concurrency::future::future_set::FutureSet;
use futures_concurrency::utils::PollNext;

struct DummyWaker;

impl Wake for DummyWaker {
    fn wake(self: Arc<Self>) {}
}

fn poll_once<F: Future + Unpin>(fut: &mut F) -> Poll<F::Output> {
    let waker = Waker::from(Arc::new(DummyWaker));
    let mut cx = Context::from_waker(&waker);
    Pin::new(fut).poll(&mut cx)
}

/// One poll of a group of futures: each woken future in key order, the first
/// to complete leaves the group and its output is yielded.
fn group_next<F: Future + Unpin>(group: &mut FutureGroup<F>) -> Poll<Option<(Key, F::Output)>> {
    let inner = group.inner_mut();
    let mut round = match inner.poll_start() {
        PollStart::Finished => return Poll::Ready(None),
        PollStart::NothingReady => return Poll::Pending,
        PollStart::Begin(round) => round,
    };
    while let Some(i) = inner.next_index(&mut round) {
        let fut = inner.item_mut(Key(i)).unwrap();
        let flow = match poll_once(fut) {
            Poll::Ready(out) => ControlFlow::Break((out, PollAgain::Stop)),
            Poll::Pending => ControlFlow::Continue(PollAgain::Poll),
        };
        if let Some(next) = inner.on_polled(&mut round, i, flow) {
            return to_poll(next);
        }
    }
    to_poll(inner.poll_end(round))
}

fn to_poll<T>(next: PollNext<T>) -> Poll<Option<T>> {
    match next {
        PollNext::Ready(item) => Poll::Ready(item),
        PollNext::Pending => Poll::Pending,
    }
}

#[test]
fn future_group_smoke() {
    let mut group: FutureGroup<future::Ready<i32>> = FutureGroup::with_capacity(0);
    group.insert(future::ready(2));
    group.insert(future::ready(4));

    let mut out = 0;
    while let Poll::Ready(Some((_, num))) = group_next(&mut group) {
        out += num;
    }
    assert_eq!(out, 6);
    assert_eq!(group.len(), 0);
    assert!(group.is_empty());
}

fn set_next<F: Future + Unpin>(set: &mut FutureSet<F>) -> Poll<Option<F::Output>> {
    if let Some(done) = set.poll_start() {
        return to_poll(done);
    }
    for key in set.poll_order() {
        let fut = set.future_mut(key).unwrap();
        let polled = match poll_once(fut) {
            Poll::Ready(item) => Some(item),
            Poll::Pending => None,
        };
        if let Some(next) = set.on_polled(key, polled) {
            return to_poll(next);
        }
    }
    to_poll(set.poll_end())
}

#[test]
fn future_set_smoke() {
    let mut set: FutureSet<Pin<Box<dyn Future<Output = usize>>>> = FutureSet::new();
    set.insert(Box::pin(async { 1 + 1 }));
    set.insert(Box::pin(async { 2 + 2 }));

    let mut out = 0;
    while let Poll::Ready(Some(num)) = set_next(&mut set) {
        out += num;
    }
    assert_eq!(out, 6);
    assert_eq!(set.len(), 0);
    assert!(set.is_empty());
}

#[test]
fn group_remove_undoes_insert() {
    let mut group: FutureGroup<future::Ready<u8>> = FutureGroup::new();
    let a = group.insert(future::ready(1));
    let b = group.insert(future::ready(2));
    assert_eq!(a, Key(0));
    assert_eq!(b, Key(1));
    assert!(group.contains_key(a));
    assert_eq!(group.len(), 2);
    assert!(group.remove(a));
    assert!(!group.contains_key(a));
    assert!(group.contains_key(b));
    assert_eq!(group.len(), 1);
    assert!(!group.remove(a));
}

#[test]
fn group_grows_when_full() {
    let mut group: FutureGroup<future::Ready<u8>> = FutureGroup::new();
    assert_eq!(group.capacity(), 0);
    group.insert(future::ready(1));
    assert_eq!(group.capacity(), 1);
    group.insert(future::ready(2));
    assert_eq!(group.capacity(), 4);
    assert_eq!(grow_group_capacity(4), 9);
}

#[test]
fn group_reserve_makes_room() {
    let mut group: FutureGroup<future::Ready<u8>> = FutureGroup::with_capacity(2);
    group.insert(future::ready(1));
    group.reserve(5);
    assert!(group.capacity() >= group.len() + 5);
    assert_eq!(group.capacity(), 7);
    group.reserve(1);
    assert_eq!(group.capacity(), 7);
}

#[test]
fn group_yields_key_of_completed_future() {
    let mut group: FutureGroup<Pin<Box<dyn Future<Output = &str>>>> = FutureGroup::new();
    let a = group.insert(Box::pin(future::pending()));
    let b = group.insert(Box::pin(future::ready("b")));
    assert_eq!(group_next(&mut group), Poll::Ready(Some((b, "b"))));
    assert!(group.contains_key(a));
    assert!(!group.contains_key(b));
    assert_eq!(group_next(&mut group), Poll::Pending);
}

#[test]
fn inner_group_stream_round_keeps_polling_live_streams() {
    let mut group: InnerGroup<u8> = InnerGroup::with_capacity(2);
    let k0 = group.insert(10);
    let k1 = group.insert(20);
    let mut round = match group.poll_start() {
        PollStart::Begin(round) => round,
        _ => unreachable!(),
    };
    assert_eq!(group.next_index(&mut round), Some(k0.0));
    // the first stream has ended: it is queued for removal and the round goes on
    let ended: ControlFlow<(u8, PollAgain), PollAgain> = ControlFlow::Continue(PollAgain::Stop);
    assert!(group.on_polled(&mut round, k0.0, ended).is_none());
    assert_eq!(group.next_index(&mut round), Some(k1.0));
    let item = ControlFlow::Break((7u8, PollAgain::Poll));
    assert_eq!(group.on_polled(&mut round, k1.0, item), Some(PollNext::Ready(Some((k1, 7)))));
    assert!(!group.contains_key(k0));
    assert!(group.contains_key(k1));
    assert_eq!(group.len(), 1);
}

#[test]
fn inner_group_round_with_nothing_woken() {
    let mut group: InnerGroup<u8> = InnerGroup::with_capacity(1);
    assert!(matches!(group.poll_start(), PollStart::Finished));
    let k = group.insert(1);
    let mut round = match group.poll_start() {
        PollStart::Begin(round) => round,
        _ => unreachable!(),
    };
    assert_eq!(group.next_index(&mut round), Some(k.0));
    let pending: ControlFlow<(u8, PollAgain), PollAgain> = ControlFlow::Continue(PollAgain::Poll);
    assert!(group.on_polled(&mut round, k.0, pending).is_none());
    assert_eq!(group.next_index(&mut round), None);
    assert_eq!(group.poll_end::<u8>(round), PollNext::Pending);
    assert!(matches!(group.poll_start(), PollStart::NothingReady));
    group.wake(k.0);
    assert!(matches!(group.poll_start(), PollStart::Begin(_)));
}

#[test]
fn group_inner_doubles_when_full() {
    let mut group: GroupInner<u8> = GroupInner::with_capacity(1);
    group.insert(1);
    assert_eq!(group.capacity(), 1);
    group.insert(2);
    assert_eq!(group.capacity(), (1 + 1) * GROUP_GROWTH_FACTOR);
    assert_eq!(group.len(), 2);
}

#[test]
fn group_reserve_does_nothing_when_capacity_suffices() {
    let mut group: FutureGroup<future::Ready<u8>> = FutureGroup::with_capacity(1);
    group.reserve(1);
    assert_eq!(group.capacity(), 1);
    group.insert(future::ready(1));
    group.reserve(1);
    assert_eq!(group.capacity(), 2);
}

#[test]
fn group_reuses_a_vacated_key() {
    let mut group: FutureGroup<future::Ready<u8>> = FutureGroup::new();
    let a = group.insert(future::ready(1));
    let _b = group.insert(future::ready(2));
    assert!(group.remove(a));
    assert_eq!(group.insert(future::ready(3)), a);
}

#[test]
fn future_set_yields_the_completed_future_and_keeps_the_rest() {
    let mut set: FutureSet<Pin<Box<dyn Future<Output = u8>>>> = FutureSet::new();
    set.insert(Box::pin(future::pending()));
    set.insert(Box::pin(future::ready(5)));
    assert_eq!(set_next(&mut set), Poll::Ready(Some(5)));
    assert_eq!(set.len(), 1);
    assert_eq!(set_next(&mut set), Poll::Pending);
    assert_eq!(set.len(), 1);
}

#[test]
fn group_inner_resize_never_shrinks() {
    let mut group: GroupInner<u8> = GroupInner::with_capacity(4);
    group.insert(1);
    group.resize(2);
    assert_eq!(group.capacity(), 4);
    group.resize(3);
    assert_eq!(group.capacity(), 4);
    group.resize(9);
    assert_eq!(group.capacity(), 9);
}
