//! The merged stream over a pair of streams.

use vstd::prelude::*;
use crate::merge::{random, random_value, xorshift32};

pub use crate::merge::{finish_in_order, in_order, poll_next_in_order, InOrder};

verus! {

/// A stream that merges a pair of streams into one stream of all their items.
/// Unlike `Merge`, the streams are not fused: both are polled on every poll.
pub struct Merge2<S0, S1, const N: usize> {
    streams: (S0, S1),
}

impl<S0, S1, const N: usize> Merge2<S0, S1, N> {
    pub closed spec fn streams(&self) -> (S0, S1) {
        self.streams
    }

    pub fn new(streams: (S0, S1)) -> (m: Self)
        ensures
            m.streams() == streams,
    {
        Merge2 { streams }
    }

    /// Draws which stream this poll visits first: 0 or 1, as `random(2)`
    /// gives it.
    pub fn first_index(rng: &mut u32) -> (i: usize)
        ensures
            *final(rng) == xorshift32(*old(rng)),
            i as int == random_value(*old(rng), 2) as int,
            i < 2,
    {
        match random(rng, 2) {
            0 => 0,
            1 => 1,
            _ => {
                assert(false);
                0
            },
        }
    }

    /// Both streams, to be polled in the drawn order.
    pub fn streams_mut(&mut self) -> (s: &mut (S0, S1))
        ensures
            *s == old(self).streams(),
            final(self).streams() == *final(s),
    {
        &mut self.streams
    }
}

} // verus!
