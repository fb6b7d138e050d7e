use std::future::{self, Future};
use std::io::{Error, ErrorKind};
use std::pin::Pin;
use std::sync::Arc;
use std::task::{Context, Poll, Wake, Waker};

use futures_concurrency::future::common::array::CombinatorArray;
use futures_concurrency::future::common::tuple::{TupleMaybeReturn, TupleWhenCompleted};
use futures_concurrency::future::common::CombinatorSlots;
use futures_concurrency::future::race::vec::Race as VecRace;
use futures_concurrency::future::race::RaceBehavior;
use futures_concurrency::future::race_ok::array::{AggregateError as ArrayAggregateError, RaceOk as ArrayRaceOk};
use futures_concurrency::future::race_ok::error::AggregateError;
use futures_concurrency::future::race_ok::vec::RaceOk as VecRaceOk;
use futures_concurrency::future::race_ok::RaceOkBehavior;
use futures_concurrency::race::array::Race as ArrayRace;

struct DummyWaker;

impl Wake for DummyWaker {
    fn wake(self: Arc<Self>) {}
}

fn poll_once<F: Future + Unpin>(fut: &mut F) -> Poll<F::Output> {
    let waker = Waker::from(Arc::new(DummyWaker));
    let mut cx = Context::from_waker(&waker);
    Pin::new(fut).poll(&mut cx)
}

/// One poll of a race over an array: the children in order, the first to
/// complete wins.
fn poll_array_race<F: Future + Unpin, const N: usize>(race: &mut ArrayRace<N>, futs: &mut [F; N]) -> Poll<F::Output> {
    assert!(!race.is_done());
    let mut round = race.begin();
    while let Some(i) = race.next_child(&round) {
        let polled = match poll_once(&mut futs[i]) {
            Poll::Ready(out) => Some(out),
            Poll::Pending => None,
        };
        if let Some(out) = race.on_polled(&mut round, polled) {
            return Poll::Ready(out);
        }
    }
    Poll::Pending
}

/// One poll of a race over a tuple of two children whose outputs have one type.
fn poll_tuple_race<F0, F1, T>(a: &mut F0, b: &mut F1) -> Poll<T>
where
    F0: Future<Output = T> + Unpin,
    F1: Future<Output = T> + Unpin,
{
    let mut slots = CombinatorSlots::new(2);
    slots.begin();
    while let Some(i) = slots.next_awake() {
        let polled = if i == 0 { poll_once(a) } else { poll_once(b) };
        if let Poll::Ready(v) = polled {
            match <RaceBehavior as TupleMaybeReturn<T, T>>::maybe_return(i, v) {
                Err(ret) => return Poll::Ready(ret),
                Ok(_) => unreachable!(),
            }
        }
    }
    Poll::Pending
}

#[test]
fn race_1() {
    let mut a = future::ready("world");
    let mut slots = CombinatorSlots::new(1);
    slots.begin();
    let i = slots.next_awake().unwrap();
    let out = match poll_once(&mut a) {
        Poll::Ready(v) => <RaceBehavior as TupleMaybeReturn<&str, &str>>::maybe_return(i, v).unwrap_err(),
        Poll::Pending => unreachable!(),
    };
    assert_eq!(out, "world");
}

#[test]
fn race_2() {
    let mut a = future::pending();
    let mut b = future::ready("world");
    assert_eq!(poll_tuple_race(&mut a, &mut b), Poll::Ready("world"));
}

#[test]
fn race_3() {
    let mut a = future::pending();
    let mut b = future::ready("hello");
    let mut c = future::ready("world");
    let mut slots = CombinatorSlots::new(3);
    slots.begin();
    let mut result = None;
    while let Some(i) = slots.next_awake() {
        let polled = match i {
            0 => poll_once(&mut a),
            1 => poll_once(&mut b),
            _ => poll_once(&mut c),
        };
        if let Poll::Ready(v) = polled {
            result = Some(<RaceBehavior as TupleMaybeReturn<&str, &str>>::maybe_return(i, v).unwrap_err());
            break;
        }
    }
    assert!(matches!(result.unwrap(), "hello" | "world"));
}

#[test]
fn vec_no_fairness() {
    let mut futs = vec![future::ready("hello"), future::ready("world")];
    let mut race: VecRace<&str> = VecRace::new(2);
    race.poll_begin();
    let mut res = None;
    while let Some(i) = race.next_awake() {
        if let Poll::Ready(out) = poll_once(&mut futs[i]) {
            res = race.on_ready(i, out);
            if res.is_some() {
                break;
            }
        }
    }
    assert!(matches!(res.unwrap(), "hello" | "world"));
}

#[test]
fn array_no_fairness() {
    let mut futs = [future::ready("hello"), future::ready("world")];
    let mut race: ArrayRace<2> = ArrayRace::new();
    assert_eq!(poll_array_race(&mut race, &mut futs), Poll::Ready("hello"));
    assert!(race.is_done());
}

#[test]
fn tuple_no_fairness() {
    let mut a = future::ready("hello");
    let mut b = future::ready("world");
    assert_eq!(poll_tuple_race(&mut a, &mut b), Poll::Ready("hello"));
}

#[test]
fn thruple() {
    let mut a = future::pending();
    let mut b = future::ready("world");
    let mut c = future::ready("hello");
    let mut slots = CombinatorSlots::new(3);
    slots.begin();
    let mut result = None;
    while let Some(i) = slots.next_awake() {
        let polled = match i {
            0 => poll_once(&mut a),
            1 => poll_once(&mut b),
            _ => poll_once(&mut c),
        };
        if let Poll::Ready(v) = polled {
            result = Some(<RaceBehavior as TupleMaybeReturn<&str, &str>>::maybe_return(i, v).unwrap_err());
            break;
        }
    }
    assert_eq!(result, Some("world"));
}

/// One poll of a race-ok over an array, kept in a `CombinatorArray`.
fn poll_combinator_race_ok<T, E, const N: usize>(
    futs: &mut [future::Ready<Result<T, E>>; N],
) -> Option<Result<T, AggregateError<[E; N]>>> {
    let mut race: CombinatorArray<Result<T, E>, RaceOkBehavior, N> = CombinatorArray::new();
    race.poll_begin();
    while let Some(i) = race.next_awake() {
        if let Poll::Ready(out) = poll_once(&mut futs[i]) {
            if let Some(done) = race.on_ready(i, out) {
                return Some(done);
            }
        }
    }
    race.poll_end()
}

#[test]
fn array_all_ok() {
    let mut futs = [future::ready(Ok::<_, ()>("hello")), future::ready(Ok("world"))];
    let res = poll_combinator_race_ok(&mut futs).unwrap();
    assert!(res.is_ok());
}

#[test]
fn array_one_err() {
    let err = Error::new(ErrorKind::Other, "oh no");
    let mut futs = [future::ready(Ok("hello")), future::ready(Err(err))];
    let res = poll_combinator_race_ok(&mut futs).unwrap();
    assert_eq!(res.unwrap(), "hello");
}

#[test]
fn array_all_err() {
    let err1 = Error::new(ErrorKind::Other, "oops");
    let err2 = Error::new(ErrorKind::Other, "oh no");
    let mut futs = [future::ready(Err::<(), _>(err1)), future::ready(Err(err2))];
    let res = poll_combinator_race_ok(&mut futs).unwrap();
    let err = res.unwrap_err();
    assert_eq!(err.errors[0].to_string(), "oops");
    assert_eq!(err.errors[1].to_string(), "oh no");
}

/// One poll of the array race-ok that counts its failed children.
fn poll_array_race_ok<T, E, const N: usize>(
    futs: &mut [future::Ready<Result<T, E>>; N],
) -> Option<Result<T, ArrayAggregateError<E, N>>> {
    let mut race: ArrayRaceOk<T, E, N> = ArrayRaceOk::new();
    for i in 0..N {
        if race.has_failed(i) {
            continue;
        }
        if let Poll::Ready(out) = poll_once(&mut futs[i]) {
            if let Some(ok) = race.on_ready(i, out) {
                return Some(Ok(ok));
            }
        }
    }
    race.poll_end().map(Err)
}

#[test]
fn mod_all_ok() {
    let mut futs = [future::ready(Ok::<_, Error>("hello")), future::ready(Ok("world"))];
    let res = poll_array_race_ok(&mut futs).unwrap();
    assert!(res.is_ok());
}

#[test]
fn mod_one_err() {
    let err = Error::new(ErrorKind::Other, "oh no");
    let mut futs = [future::ready(Ok("hello")), future::ready(Err(err))];
    let res = poll_array_race_ok(&mut futs).unwrap();
    assert_eq!(res.ok().unwrap(), "hello");
}

#[test]
fn mod_all_err() {
    let err1 = Error::new(ErrorKind::Other, "oops");
    let err2 = Error::new(ErrorKind::Other, "oh no");
    let mut futs = [future::ready(Err::<&str, _>(err1)), future::ready(Err(err2))];
    let res = poll_array_race_ok(&mut futs).unwrap();
    let errs = res.unwrap_err();
    assert_eq!(errs.deref()[0].to_string(), "oops");
    assert_eq!(errs.deref()[1].to_string(), "oh no");
}

/// One poll of a race-ok over a vec.
fn poll_vec_race_ok<T, E>(futs: &mut [future::Ready<Result<T, E>>]) -> Option<Result<T, AggregateError<Vec<E>>>> {
    let mut race: VecRaceOk<T, E> = VecRaceOk::new(futs.len());
    race.poll_begin();
    while let Some(i) = race.next_awake() {
        if let Poll::Ready(out) = poll_once(&mut futs[i]) {
            if let Some(done) = race.on_ready(i, out) {
                return Some(done);
            }
        }
    }
    race.poll_end()
}

#[test]
fn vec_all_ok() {
    let mut futs = vec![future::ready(Ok::<_, ()>("hello")), future::ready(Ok("world"))];
    let res = poll_vec_race_ok(&mut futs).unwrap();
    assert!(res.is_ok());
}

#[test]
fn vec_one_err() {
    let err = Error::new(ErrorKind::Other, "oh no");
    let mut futs = vec![future::ready(Ok("hello")), future::ready(Err(err))];
    let res = poll_vec_race_ok(&mut futs).unwrap();
    assert_eq!(res.unwrap(), "hello");
}

#[test]
fn vec_all_err() {
    let err1 = Error::new(ErrorKind::Other, "oops");
    let err2 = Error::new(ErrorKind::Other, "oh no");
    let mut futs = vec![future::ready(Err::<(), _>(err1)), future::ready(Err(err2))];
    let res = poll_vec_race_ok(&mut futs).unwrap();
    let err = res.unwrap_err();
    assert_eq!(err.errors[0].to_string(), "oops");
    assert_eq!(err.errors[1].to_string(), "oh no");
}

type DynError = Box<dyn std::error::Error>;

#[test]
fn race_ok_1() {
    let mut a = future::ready(Ok::<_, DynError>("world"));
    let mut slots = CombinatorSlots::new(1);
    slots.begin();
    let i = slots.next_awake().unwrap();
    let res = match poll_once(&mut a) {
        Poll::Ready(v) => {
            <RaceOkBehavior as TupleMaybeReturn<Result<&str, DynError>, Result<&str, AggregateError<(DynError,)>>>>::maybe_return(i, v)
        },
        Poll::Pending => unreachable!(),
    };
    assert!(matches!(res.err().unwrap().unwrap(), "world"));
}

#[test]
fn race_ok_2() {
    let mut a = future::pending::<Result<&str, ()>>();
    let mut b = future::ready(Ok::<_, DynError>("world"));
    let mut slots = CombinatorSlots::new(2);
    slots.begin();
    let mut result = None;
    while let Some(i) = slots.next_awake() {
        if i == 0 {
            assert!(poll_once(&mut a).is_pending());
        } else if let Poll::Ready(v) = poll_once(&mut b) {
            match <RaceOkBehavior as TupleMaybeReturn<Result<&str, DynError>, Result<&str, AggregateError<((), DynError)>>>>::maybe_return(i, v) {
                Err(ret) => {
                    result = Some(ret);
                    break;
                },
                Ok(_) => slots.fill(i),
            }
        }
    }
    assert!(matches!(result.unwrap().unwrap(), "world"));
}

#[test]
fn race_ok_3() {
    let mut a = future::pending::<Result<&str, ()>>();
    let mut b = future::ready(Ok::<_, DynError>("hello"));
    let mut c = future::ready(Ok::<_, DynError>("world"));
    let mut slots = CombinatorSlots::new(3);
    slots.begin();
    let mut result = None;
    while let Some(i) = slots.next_awake() {
        let polled = match i {
            0 => {
                assert!(poll_once(&mut a).is_pending());
                continue;
            },
            1 => poll_once(&mut b),
            _ => poll_once(&mut c),
        };
        if let Poll::Ready(v) = polled {
            let step = <RaceOkBehavior as TupleMaybeReturn<Result<&str, DynError>, Result<&str, AggregateError<((), DynError, DynError)>>>>::maybe_return(i, v);
            if let Err(ret) = step {
                result = Some(ret);
                break;
            }
        }
    }
    assert!(matches!(result.unwrap().unwrap(), "hello" | "world"));
}

#[test]
fn race_ok_err() {
    let mut a = future::ready(Err::<(), _>("hello"));
    let mut b = future::ready(Err::<(), _>("world"));
    let mut slots = CombinatorSlots::new(2);
    let (mut err_a, mut err_b) = (None, None);
    slots.begin();
    while let Some(i) = slots.next_awake() {
        let polled = if i == 0 { poll_once(&mut a) } else { poll_once(&mut b) };
        if let Poll::Ready(v) = polled {
            let step = <RaceOkBehavior as TupleMaybeReturn<Result<(), &str>, Result<(), AggregateError<(&str, &str)>>>>::maybe_return(i, v);
            match step {
                Ok(e) => {
                    if i == 0 {
                        err_a = Some(e);
                    } else {
                        err_b = Some(e);
                    }
                    slots.fill(i);
                },
                Err(_) => unreachable!(),
            }
        }
    }
    assert!(slots.complete());
    let out = <RaceOkBehavior as TupleWhenCompleted<(&str, &str), Result<(), AggregateError<(&str, &str)>>>>::when_completed((
        err_a.unwrap(),
        err_b.unwrap(),
    ));
    let AggregateError { errors } = out.unwrap_err();
    assert_eq!(errors.0, "hello");
    assert_eq!(errors.1, "world");
}

#[test]
fn race_ok_keeps_errors_in_child_order() {
    let mut race: VecRaceOk<u8, &str> = VecRaceOk::new(3);
    race.poll_begin();
    assert_eq!(race.next_awake(), Some(0));
    assert!(race.on_ready(2, Err("c")).is_none());
    assert!(race.on_ready(0, Err("a")).is_none());
    assert!(race.on_ready(1, Err("b")).is_none());
    let out = race.poll_end().unwrap();
    assert_eq!(out.unwrap_err().errors, vec!["a", "b", "c"]);
}

#[test]
fn race_ok_first_success_wins() {
    let mut race: ArrayRaceOk<u8, &str, 3> = ArrayRaceOk::new();
    assert_eq!(race.on_ready(1, Err("b")), None);
    assert!(race.has_failed(1));
    assert_eq!(race.on_ready(2, Ok(7)), Some(7));
    assert!(race.poll_end().is_none());
}

#[test]
fn vec_race_visits_children_in_the_order_they_woke() {
    let mut futs = vec![future::ready("hello"), future::ready("world")];
    let mut race: VecRace<&str> = VecRace::new(2);
    race.poll_begin();
    let i = race.next_awake().unwrap();
    assert_eq!(i, 0);
    let out = match poll_once(&mut futs[i]) {
        Poll::Ready(v) => race.on_ready(i, v),
        Poll::Pending => None,
    };
    assert_eq!(out, Some("hello"));
}

#[test]
fn slots_visit_in_wake_order() {
    let mut slots = CombinatorSlots::new(3);
    slots.begin();
    while slots.next_awake().is_some() {}
    assert!(slots.wake(2));
    assert!(slots.wake(0));
    assert!(!slots.wake(2));
    slots.begin();
    assert_eq!(slots.next_awake(), Some(2));
    assert_eq!(slots.next_awake(), Some(0));
    assert_eq!(slots.next_awake(), None);
}

#[test]
fn array_race_first_ready_in_index_order_wins() {
    let mut race: ArrayRace<3> = ArrayRace::new();
    let mut round = race.begin();
    assert_eq!(race.next_child(&round), Some(0));
    assert_eq!(race.on_polled::<&str>(&mut round, None), None);
    assert_eq!(race.next_child(&round), Some(1));
    assert_eq!(race.on_polled(&mut round, Some("b")), Some("b"));
    assert!(race.is_done());
}

#[test]
fn combinator_race_ok_keeps_errors_in_child_order() {
    let mut race: CombinatorArray<Result<u8, &str>, RaceOkBehavior, 2> = CombinatorArray::new();
    race.poll_begin();
    assert!(race.on_ready(1, Err("b")).is_none());
    assert!(race.on_ready(0, Err("a")).is_none());
    let out = race.poll_end().unwrap();
    assert_eq!(out.unwrap_err().errors, ["a", "b"]);
}
