use std::collections::VecDeque;
use std::io::{self, Error, ErrorKind};

use futures_concurrency::concurrent_stream::{
    concurrency_limit, finish_step, ConsumerState, EnumerateCount, InFlight, TryForEachState,
};

/// Runs `for_each` over `items` with at most `limit` futures in flight; each
/// future adds its item to `total` when it completes (oldest first).
fn run_for_each(items: Vec<usize>, limit: Option<usize>, total: &mut usize, most_in_flight: &mut usize) {
    let mut state = InFlight::new(limit);
    let mut group: VecDeque<usize> = VecDeque::new();
    for n in items {
        while state.must_wait() {
            match group.pop_front() {
                Some(m) => {
                    *total += m;
                    state.on_complete();
                },
                None => break,
            }
        }
        state.on_insert();
        group.push_back(n);
        *most_in_flight = (*most_in_flight).max(group.len());
    }
    while let Some(m) = group.pop_front() {
        *total += m;
        state.on_complete();
    }
}

/// Runs `try_for_each` over `items` with at most `limit` futures in flight;
/// each future adds its item to `total` and then gives `outcome`.
fn run_try_for_each(
    items: Vec<usize>,
    limit: Option<usize>,
    outcome: fn() -> io::Result<()>,
    total: &mut usize,
) -> io::Result<()> {
    let mut state: TryForEachState<Error> = TryForEachState::new(limit);
    let mut group: VecDeque<usize> = VecDeque::new();
    let run = |m: usize, total: &mut usize| {
        *total += m;
        outcome()
    };
    'send: for n in items {
        while state.must_wait() {
            let out = group.pop_front().map(|m| run(m, total));
            if out.is_some() {
                state.in_flight_mut().on_complete();
            }
            match state.on_output(out, ConsumerState::Continue) {
                Some(ConsumerState::Break) => break 'send,
                Some(_) => break,
                None => {},
            }
        }
        state.in_flight_mut().on_insert();
        group.push_back(n);
    }
    if let Some(err) = state.take_error() {
        return Err(err);
    }
    loop {
        let out = group.pop_front().map(|m| run(m, total));
        if let Some(result) = finish_step(out) {
            return result;
        }
    }
}

#[test]
fn for_each_concurrency_one() {
    let mut count = 0;
    let mut most = 0;
    run_for_each(vec![1; 2], Some(1), &mut count, &mut most);
    assert_eq!(count, 2);
    assert_eq!(most, 1);
}

#[test]
fn for_each_concurrency_three() {
    let mut count = 0;
    let mut most = 0;
    run_for_each(vec![1; 10], Some(3), &mut count, &mut most);
    assert_eq!(count, 10);
    assert_eq!(most, 3);
}

#[test]
fn try_for_each_concurrency_one() {
    let mut count = 0;
    run_try_for_each(vec![1; 2], Some(1), || Ok(()), &mut count).unwrap();
    assert_eq!(count, 2);
}

#[test]
fn try_for_each_concurrency_three() {
    let mut count = 0;
    run_try_for_each(vec![1; 10], Some(3), || Ok(()), &mut count).unwrap();
    assert_eq!(count, 10);
}

#[test]
fn short_circuits() {
    let mut count = 0;
    let output = run_try_for_each(vec![10; 2], Some(1), || Err(ErrorKind::Other.into()), &mut count);
    assert!(output.is_err());
    assert_eq!(count, 10);
}

#[test]
fn enumerate() {
    let mut counter = EnumerateCount::new();
    for n in 0..5usize {
        let index = counter.next_index();
        assert_eq!(index, n);
    }
}

#[test]
fn for_each() {
    let mut count = 0;
    let mut most = 0;
    run_for_each(vec![1; 2], Some(3), &mut count, &mut most);
    assert_eq!(count, 2);
    assert_eq!(most, 2);
}

#[test]
fn drain() {
    let mut count = 0;
    let mut most = 0;
    run_for_each(vec![1; 5], None, &mut count, &mut most);
    assert_eq!(count, 5);
    assert_eq!(most, 5);
}

#[test]
fn unlimited_concurrency_is_usize_max() {
    assert_eq!(concurrency_limit(None), usize::MAX);
    assert_eq!(concurrency_limit(Some(4)), 4);
}

#[test]
fn progress_reports_empty_or_break() {
    let mut state: TryForEachState<&str> = TryForEachState::new(None);
    assert_eq!(state.on_output(Some(Ok(())), ConsumerState::Empty), None);
    assert_eq!(state.on_output(None, ConsumerState::Empty), Some(ConsumerState::Empty));
    assert_eq!(state.on_output(Some(Err("bad")), ConsumerState::Empty), Some(ConsumerState::Break));
    assert_eq!(state.take_error(), Some("bad"));
    assert_eq!(state.take_error(), None);
}

#[test]
fn finish_returns_first_error() {
    assert_eq!(finish_step::<&str>(None), Some(Ok(())));
    assert_eq!(finish_step::<&str>(Some(Ok(()))), None);
    assert_eq!(finish_step(Some(Err("e"))), Some(Err("e")));
}
