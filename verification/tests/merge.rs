use futures_concurrency::merge::array::Merge as ArrayMerge;
use futures_concurrency::merge::tuple::Merge2;
use futures_concurrency::merge::{finish_in_order, poll_next_in_order, random, Fuse, InOrder, Merge, Side};
use futures_concurrency::utils::PollNext;

/// A stream over a vector: always ready, `None` at the end.
fn poll_iter(s: &mut std::vec::IntoIter<u8>) -> PollNext<u8> {
    PollNext::Ready(s.next())
}

/// What a poll of a fused stream over a vector yields.
fn poll_fuse(f: &mut Fuse<std::vec::IntoIter<u8>>) -> PollNext<u8> {
    if f.is_done() {
        return PollNext::Ready(None);
    }
    let next = poll_iter(f.stream_mut());
    f.on_polled(next)
}

#[test]
fn random_values() {
    let mut state: u32 = 1;
    assert_eq!(random(&mut state, 2), 0);
    assert_eq!(state, 270369);

    let mut state: u32 = 0xdead_beef;
    assert_eq!(random(&mut state, 1000), 279);
    assert_eq!(state, 1199382711);
    assert_eq!(random(&mut state, 1000), 555);
    assert_eq!(random(&mut state, 1000), 728);

    let mut state: u32 = 42;
    assert_eq!(random(&mut state, 1000), 2);
    assert_eq!(random(&mut state, 0), 0);
}

#[test]
fn random_stays_below_bound() {
    let mut state: u32 = 0x1234_5678;
    for n in 1..200u32 {
        assert!(random(&mut state, n) < n);
    }
}

#[test]
fn fuse_yields_none_forever() {
    let mut f = Fuse::new(vec![1u8].into_iter());
    assert!(!f.is_done());
    assert_eq!(poll_fuse(&mut f), PollNext::Ready(Some(1)));
    assert_eq!(poll_fuse(&mut f), PollNext::Ready(None));
    assert!(f.is_done());
    assert_eq!(poll_fuse(&mut f), PollNext::Ready(None));
    assert_eq!(poll_fuse(&mut f), PollNext::Ready(None));
}

#[test]
fn in_order_takes_first_item() {
    assert_eq!(poll_next_in_order(PollNext::Ready(Some(1u8))), InOrder::Done(PollNext::Ready(Some(1))));
    assert_eq!(poll_next_in_order::<u8>(PollNext::Ready(None)), InOrder::PollSecond(false));
    assert_eq!(poll_next_in_order::<u8>(PollNext::Pending), InOrder::PollSecond(true));
}

#[test]
fn in_order_second_half() {
    assert_eq!(finish_in_order(false, PollNext::Ready(Some(2u8))), PollNext::Ready(Some(2)));
    assert_eq!(finish_in_order::<u8>(false, PollNext::Ready(None)), PollNext::Ready(None));
    assert_eq!(finish_in_order::<u8>(false, PollNext::Pending), PollNext::Pending);
    assert_eq!(finish_in_order(true, PollNext::Ready(Some(2u8))), PollNext::Ready(Some(2)));
    // the first stream is pending, so the merge is not over even if the second is
    assert_eq!(finish_in_order::<u8>(true, PollNext::Ready(None)), PollNext::Pending);
    assert_eq!(finish_in_order::<u8>(true, PollNext::Pending), PollNext::Pending);
}

/// One poll of a merge of two fused streams.
fn poll_merge(m: &mut Merge<std::vec::IntoIter<u8>, std::vec::IntoIter<u8>>, rng: &mut u32) -> PollNext<u8> {
    let side = Merge::<std::vec::IntoIter<u8>, std::vec::IntoIter<u8>>::first_side(rng);
    let first = match side {
        Side::Left => poll_fuse(m.left_mut()),
        Side::Right => poll_fuse(m.right_mut()),
    };
    match poll_next_in_order(first) {
        InOrder::Done(r) => r,
        InOrder::PollSecond(first_pending) => {
            let second = match side {
                Side::Left => poll_fuse(m.right_mut()),
                Side::Right => poll_fuse(m.left_mut()),
            };
            finish_in_order(first_pending, second)
        },
    }
}

#[test]
fn merge_yields_all_items_of_both_streams() {
    let mut m = Merge::new(vec![1u8].into_iter(), vec![2u8].into_iter());
    let mut rng: u32 = 12345;
    let mut buf = vec![];
    while let PollNext::Ready(Some(n)) = poll_merge(&mut m, &mut rng) {
        buf.push(n);
    }
    buf.sort_unstable();
    assert_eq!(&buf, &[1u8, 2u8]);
    assert_eq!(poll_merge(&mut m, &mut rng), PollNext::Ready(None));
}

#[test]
fn merge_first_side_follows_the_generator() {
    type M = Merge<std::vec::IntoIter<u8>, std::vec::IntoIter<u8>>;
    let mut rng: u32 = 1;
    assert_eq!(M::first_side(&mut rng), Side::Left);
    assert_eq!(rng, 270369);
}

/// One poll of a merge of an array of streams.
fn poll_array_merge<const N: usize>(m: &mut ArrayMerge<std::vec::IntoIter<u8>, N>, rng: &mut u32) -> PollNext<u8> {
    let mut round = m.begin_round(rng);
    while let Some(i) = m.next_stream(&mut round) {
        let next = poll_iter(m.stream_mut(i));
        if let Some(r) = m.on_polled(&mut round, i, next) {
            return r;
        }
    }
    round.finish()
}

#[test]
fn array_merge_yields_all_items() {
    let streams = vec![vec![1u8].into_iter(), vec![2u8].into_iter(), vec![3u8].into_iter()];
    let mut m: ArrayMerge<std::vec::IntoIter<u8>, 3> = ArrayMerge::new(streams);
    let mut rng: u32 = 99;
    let mut buf = vec![];
    while let PollNext::Ready(Some(n)) = poll_array_merge(&mut m, &mut rng) {
        buf.push(n);
    }
    buf.sort_unstable();
    assert_eq!(&buf, &[1u8, 2u8, 3u8]);
    assert_eq!(poll_array_merge(&mut m, &mut rng), PollNext::Ready(None));
}

#[test]
fn array_merge_visits_in_shuffled_order() {
    // From state 12345 the keys drawn for positions 0, 1, 2 are 776, 395 and
    // 655, so the stable sort visits stream 1, then 2, then 0.
    let streams = vec![vec![10u8].into_iter(), vec![11u8].into_iter(), vec![12u8].into_iter()];
    let mut m: ArrayMerge<std::vec::IntoIter<u8>, 3> = ArrayMerge::new(streams);
    let mut rng: u32 = 12345;
    let mut round = m.begin_round(&mut rng);
    assert_eq!(rng, 2816511904);
    assert_eq!(m.next_stream(&mut round), Some(1));
    let next = poll_iter(m.stream_mut(1));
    assert_eq!(m.on_polled(&mut round, 1, next), Some(PollNext::Ready(Some(11))));
}

#[test]
fn array_merge_pending_when_a_stream_is_pending() {
    let streams = vec![vec![].into_iter(), vec![5u8].into_iter()];
    let mut m: ArrayMerge<std::vec::IntoIter<u8>, 2> = ArrayMerge::new(streams);
    let mut rng: u32 = 7;
    let mut round = m.begin_round(&mut rng);
    let mut saw = vec![];
    while let Some(i) = m.next_stream(&mut round) {
        saw.push(i);
        // stream 1 is not ready yet; stream 0 has ended
        let next = if i == 1 { PollNext::Pending } else { poll_iter(m.stream_mut(i)) };
        assert_eq!(m.on_polled(&mut round, i, next), None);
    }
    saw.sort_unstable();
    assert_eq!(saw, vec![0, 1]);
    assert_eq!(round.finish::<u8>(), PollNext::Pending);
}

#[test]
fn merge2_yields_items_of_both() {
    let mut m: Merge2<std::vec::IntoIter<u8>, std::vec::IntoIter<u8>, 2> = Merge2::new((vec![1u8].into_iter(), vec![2u8].into_iter()));
    let mut rng: u32 = 0xdead_beef;
    let mut buf = vec![];
    loop {
        let first = Merge2::<std::vec::IntoIter<u8>, std::vec::IntoIter<u8>, 2>::first_index(&mut rng);
        let streams = m.streams_mut();
        let polled_first = if first == 0 { poll_iter(&mut streams.0) } else { poll_iter(&mut streams.1) };
        let out = match poll_next_in_order(polled_first) {
            InOrder::Done(r) => r,
            InOrder::PollSecond(p) => {
                let second = if first == 0 { poll_iter(&mut streams.1) } else { poll_iter(&mut streams.0) };
                finish_in_order(p, second)
            },
        };
        match out {
            PollNext::Ready(Some(n)) => buf.push(n),
            _ => break,
        }
    }
    buf.sort_unstable();
    assert_eq!(&buf, &[1u8, 2u8]);
}

#[test]
fn merge2_first_index_follows_the_generator() {
    let mut rng: u32 = 42;
    assert_eq!(Merge2::<u8, u8, 2>::first_index(&mut rng), 0);
    assert_eq!(rng, 11355432);
}
