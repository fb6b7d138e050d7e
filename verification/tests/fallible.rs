use std::future::{self, Future};
use std::io::{self, Error, ErrorKind};
use std::pin::Pin;
use std::sync::Arc;
use std::task::{Context, Poll, Wake, Waker};

use futures_concurrency::first_ok::array::{AggregateError as ArrayFirstOkError, FirstOk as ArrayFirstOk};
use futures_concurrency::future::common::tuple::{TupleMaybeReturn, TupleWhenCompleted};
use futures_concurrency::future::common::CombinatorSlots;
use futures_concurrency::future::first_ok::vec::{AggregateError as VecFirstOkError, FirstOk as VecFirstOk};
use futures_concurrency::future::try_join::array::TryJoin as ArrayTryJoin;
use futures_concurrency::future::try_join::vec::TryJoin as VecTryJoin;
use futures_concurrency::future::try_join::TryJoinBehavior;
use futures_concurrency::future::try_merge::vec::TryJoin as TryMerge;
use futures_concurrency::utils::PollState;

struct DummyWaker;

impl Wake for DummyWaker {
    fn wake(self: Arc<Self>) {}
}

fn poll_once<F: Future + Unpin>(fut: &mut F) -> Poll<F::Output> {
    let waker = Waker::from(Arc::new(DummyWaker));
    let mut cx = Context::from_waker(&waker);
    Pin::new(fut).poll(&mut cx)
}

fn first_ok_array<T, E, const N: usize>(futs: &mut [future::Ready<Result<T, E>>; N]) -> Result<T, ArrayFirstOkError<E, N>> {
    let mut fut: ArrayFirstOk<T, E, N> = ArrayFirstOk::new();
    loop {
        for i in 0..N {
            if fut.is_running(i) {
                if let Poll::Ready(out) = poll_once(&mut futs[i]) {
                    if let Some(ok) = fut.on_ready(i, out) {
                        return Ok(ok);
                    }
                }
            }
        }
        if let Some(errs) = fut.poll_end() {
            return Err(errs);
        }
    }
}

fn first_ok_vec<T, E>(futs: &mut [future::Ready<Result<T, E>>]) -> Result<T, VecFirstOkError<E>> {
    let mut fut: VecFirstOk<T, E> = VecFirstOk::new(futs.len());
    loop {
        for i in 0..fut.len() {
            if fut.is_running(i) {
                if let Poll::Ready(out) = poll_once(&mut futs[i]) {
                    if let Some(ok) = fut.on_ready(i, out) {
                        return Ok(ok);
                    }
                }
            }
        }
        if let Some(errs) = fut.poll_end() {
            return Err(errs);
        }
    }
}

#[test]
fn first_ok_array_all_ok() {
    let mut futs = [future::ready(Ok::<_, Error>("hello")), future::ready(Ok("world"))];
    let res: Result<&str, ArrayFirstOkError<Error, 2>> = first_ok_array(&mut futs);
    assert!(res.is_ok());
}

#[test]
fn first_ok_array_one_err() {
    let err = Error::new(ErrorKind::Other, "oh no");
    let mut futs = [future::ready(Ok("hello")), future::ready(Err(err))];
    let res: Result<&str, ArrayFirstOkError<Error, 2>> = first_ok_array(&mut futs);
    assert_eq!(res.ok().unwrap(), "hello");
}

#[test]
fn first_ok_array_all_err() {
    let err1 = Error::new(ErrorKind::Other, "oops");
    let err2 = Error::new(ErrorKind::Other, "oh no");
    let mut futs = [future::ready(Err(err1)), future::ready(Err(err2))];
    let res: Result<&str, ArrayFirstOkError<Error, 2>> = first_ok_array(&mut futs);
    let errs = res.err().unwrap();
    assert_eq!(errs.deref()[0].to_string(), "oops");
    assert_eq!(errs.deref()[1].to_string(), "oh no");
}

#[test]
fn first_ok_vec_all_ok() {
    let mut futs = vec![future::ready(Ok::<_, Error>("hello")), future::ready(Ok("world"))];
    let res: Result<&str, VecFirstOkError<Error>> = first_ok_vec(&mut futs);
    assert!(res.is_ok());
}

#[test]
fn first_ok_vec_one_err() {
    let err = Error::new(ErrorKind::Other, "oh no");
    let mut futs = vec![future::ready(Ok("hello")), future::ready(Err(err))];
    let res: Result<&str, VecFirstOkError<Error>> = first_ok_vec(&mut futs);
    assert_eq!(res.ok().unwrap(), "hello");
}

#[test]
fn first_ok_vec_all_err() {
    let err1 = Error::new(ErrorKind::Other, "oops");
    let err2 = Error::new(ErrorKind::Other, "oh no");
    let mut futs = vec![future::ready(Err(err1)), future::ready(Err(err2))];
    let res: Result<&str, VecFirstOkError<Error>> = first_ok_vec(&mut futs);
    let errs = res.err().unwrap();
    assert_eq!(errs.deref()[0].to_string(), "oops");
    assert_eq!(errs.deref()[1].to_string(), "oh no");
}

fn try_join_array<T, E, const N: usize>(futs: &mut [future::Ready<Result<T, E>>; N]) -> Result<[T; N], E> {
    let mut fut: ArrayTryJoin<T, E, N> = ArrayTryJoin::new();
    loop {
        for i in 0..N {
            if fut.is_running(i) {
                if let Poll::Ready(out) = poll_once(&mut futs[i]) {
                    if let Some(err) = fut.on_ready(i, out) {
                        return Err(err);
                    }
                }
            }
        }
        if let Some(all) = fut.poll_end() {
            return Ok(all);
        }
    }
}

#[test]
fn try_join_array_all_ok() {
    let mut futs = [future::ready(Ok("hello")), future::ready(Ok("world"))];
    let res: io::Result<_> = try_join_array(&mut futs);
    assert_eq!(res.unwrap(), ["hello", "world"]);
}

#[test]
fn try_join_array_one_err() {
    let err = Error::new(ErrorKind::Other, "oh no");
    let mut futs = [future::ready(Ok("hello")), future::ready(Err(err))];
    let res: io::Result<_> = try_join_array(&mut futs);
    assert_eq!(res.unwrap_err().to_string(), String::from("oh no"));
}

fn try_join_vec<T, E>(futs: &mut [future::Ready<Result<T, E>>]) -> Result<Vec<T>, E> {
    let mut fut: VecTryJoin<T, E> = VecTryJoin::new(futs.len());
    loop {
        if fut.poll_begin() {
            for i in 0..futs.len() {
                if fut.can_progress(i) {
                    if let Poll::Ready(out) = poll_once(&mut futs[i]) {
                        if let Some(err) = fut.on_ready(i, out) {
                            return Err(err);
                        }
                    }
                }
            }
        }
        if let Some(all) = fut.poll_end() {
            return Ok(all);
        }
    }
}

#[test]
fn try_join_vec_all_ok() {
    let mut futs = vec![future::ready(Ok("hello")), future::ready(Ok("world"))];
    let res: io::Result<_> = try_join_vec(&mut futs);
    assert_eq!(res.unwrap(), ["hello", "world"]);
}

#[test]
fn try_join_vec_one_err() {
    let err = Error::new(ErrorKind::Other, "oh no");
    let mut futs = vec![future::ready(Ok("hello")), future::ready(Err(err))];
    let res: io::Result<_> = try_join_vec(&mut futs);
    assert_eq!(res.unwrap_err().to_string(), String::from("oh no"));
}

#[test]
fn try_join_vec_ends_with_states_cleared() {
    let mut fut: VecTryJoin<u8, ()> = VecTryJoin::new(2);
    assert!(fut.poll_begin());
    assert!(fut.can_progress(1));
    assert_eq!(fut.on_ready(1, Ok(2)), None);
    assert_eq!(fut.poll_end(), None);
    assert_eq!(fut.state_list(), vec![PollState::Pending, PollState::Ready]);
    assert!(fut.can_progress(0));
    assert_eq!(fut.on_ready(0, Ok(1)), None);
    assert_eq!(fut.poll_end(), Some(vec![1, 2]));
    assert_eq!(fut.state_list(), vec![PollState::Empty, PollState::Empty]);
}

fn try_merge_vec<T, E>(futs: &mut [future::Ready<Result<T, E>>]) -> Result<Vec<T>, E> {
    let mut fut: TryMerge<T, E> = TryMerge::new(futs.len());
    loop {
        for i in 0..fut.len() {
            if fut.is_running(i) {
                if let Poll::Ready(out) = poll_once(&mut futs[i]) {
                    if let Some(err) = fut.on_ready(i, out) {
                        return Err(err);
                    }
                }
            }
        }
        if let Some(all) = fut.poll_end() {
            return Ok(all);
        }
    }
}

#[test]
fn try_merge_vec_all_ok() {
    let mut futs = vec![future::ready(Ok("hello")), future::ready(Ok("world"))];
    let res: io::Result<_> = try_merge_vec(&mut futs);
    assert_eq!(res.unwrap(), vec!["hello", "world"]);
}

#[test]
fn try_merge_vec_one_err() {
    let err = Error::new(ErrorKind::Other, "oh no");
    let mut futs = vec![future::ready(Ok("hello")), future::ready(Err(err))];
    let res: io::Result<_> = try_merge_vec(&mut futs);
    assert_eq!(res.unwrap_err().to_string(), String::from("oh no"));
}

#[test]
fn tuple_all_ok() {
    let mut a = future::ready(Ok::<_, std::convert::Infallible>("aaaa"));
    let mut b = future::ready(Ok::<_, std::convert::Infallible>(1));
    let mut c = future::ready(Ok::<_, std::convert::Infallible>('z'));
    type Out = Result<(&'static str, i32, char), std::convert::Infallible>;
    let mut slots = CombinatorSlots::new(3);
    let (mut ia, mut ib, mut ic) = (None, None, None);
    slots.begin();
    while let Some(i) = slots.next_awake() {
        match i {
            0 => {
                if let Poll::Ready(v) = poll_once(&mut a) {
                    ia = Some(<TryJoinBehavior as TupleMaybeReturn<_, Out>>::maybe_return(0, v).ok().unwrap());
                    slots.fill(0);
                }
            },
            1 => {
                if let Poll::Ready(v) = poll_once(&mut b) {
                    ib = Some(<TryJoinBehavior as TupleMaybeReturn<_, Out>>::maybe_return(1, v).ok().unwrap());
                    slots.fill(1);
                }
            },
            _ => {
                if let Poll::Ready(v) = poll_once(&mut c) {
                    ic = Some(<TryJoinBehavior as TupleMaybeReturn<_, Out>>::maybe_return(2, v).ok().unwrap());
                    slots.fill(2);
                }
            },
        }
    }
    assert!(slots.complete());
    let result: Out = <TryJoinBehavior as TupleWhenCompleted<_, Out>>::when_completed((ia.unwrap(), ib.unwrap(), ic.unwrap()));
    assert_eq!(result, Ok(("aaaa", 1, 'z')));
}

#[test]
fn tuple_one_err() {
    let err = Error::new(ErrorKind::Other, "oh no");
    let mut a = future::ready(Ok("hello"));
    let mut b = future::ready(Err::<char, _>(err));
    type Out = io::Result<(&'static str, char)>;
    let mut slots = CombinatorSlots::new(2);
    let mut res: Option<Out> = None;
    slots.begin();
    while let Some(i) = slots.next_awake() {
        if i == 0 {
            if let Poll::Ready(v) = poll_once(&mut a) {
                match <TryJoinBehavior as TupleMaybeReturn<io::Result<&str>, Out>>::maybe_return(0, v) {
                    Ok(_) => slots.fill(0),
                    Err(ret) => {
                        res = Some(ret);
                        break;
                    },
                }
            }
        } else if let Poll::Ready(v) = poll_once(&mut b) {
            match <TryJoinBehavior as TupleMaybeReturn<io::Result<char>, Out>>::maybe_return(1, v) {
                Ok(_) => slots.fill(1),
                Err(ret) => {
                    res = Some(ret);
                    break;
                },
            }
        }
    }
    assert_eq!(res.unwrap().unwrap_err().to_string(), String::from("oh no"));
}

#[test]
fn issue_135_resume_after_completion() {
    // The second child yields once before it succeeds: the join completes on
    // the poll after it has been woken again, without polling the first child
    // a second time.
    let mut second_polls = 0;
    let mut slots = CombinatorSlots::new(2);
    let mut first_polls = 0;
    let mut result: Option<Result<((), ()), ()>> = None;
    for _round in 0..2 {
        slots.begin();
        while let Some(i) = slots.next_awake() {
            if i == 0 {
                first_polls += 1;
                let _: Result<(), Result<((), ()), ()>> = <TryJoinBehavior as TupleMaybeReturn<Result<(), ()>, Result<((), ()), ()>>>::maybe_return(0, Ok(()));
                slots.fill(0);
            } else {
                second_polls += 1;
                if second_polls == 1 {
                    slots.wake(1);
                } else {
                    slots.fill(1);
                }
            }
        }
        if slots.complete() {
            result = Some(<TryJoinBehavior as TupleWhenCompleted<((), ()), Result<((), ()), ()>>>::when_completed(((), ())));
            break;
        }
    }
    assert_eq!(first_polls, 1);
    assert_eq!(result.unwrap().unwrap(), ((), ()));
}

#[test]
fn try_join_vec_of_nothing_completes_at_once() {
    let mut futs: Vec<future::Ready<Result<u8, ()>>> = vec![];
    assert_eq!(try_join_vec(&mut futs), Ok(vec![]));
    let mut fut: VecTryJoin<u8, ()> = VecTryJoin::new(0);
    assert!(fut.poll_begin());
    assert_eq!(fut.poll_end(), Some(vec![]));
}
