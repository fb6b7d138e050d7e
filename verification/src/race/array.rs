//! Racing an array of children.

use vstd::prelude::*;

verus! {

/// Where a poll of a race stands: the index of the next child to poll.
pub struct RaceRound {
    next: usize,
}

impl RaceRound {
    /// The index of the next child to poll; every child below it was pending.
    pub closed spec fn next(&self) -> nat {
        self.next as nat
    }
}

/// Waits for the first of similarly-typed children to complete: the
/// bookkeeping. Each poll goes through the children in order; the first to
/// complete ends the race, which must not be polled again.
pub struct Race<const N: usize> {
    done: bool,
}

impl<const N: usize> Race<N> {
    /// Whether the race is over.
    pub closed spec fn done(&self) -> bool {
        self.done
    }

    pub fn new() -> (r: Self)
        ensures
            !r.done(),
    {
        Race { done: false }
    }

    pub fn is_done(&self) -> (b: bool)
        ensures
            b == self.done(),
    {
        self.done
    }

    /// Begin a poll, which must not come after the race is over: the children
    /// are polled in index order, starting at 0.
    pub fn begin(&self) -> (round: RaceRound)
        requires
            !self.done(),
        ensures
            round.next() == 0,
    {
        RaceRound { next: 0 }
    }

    /// The next child this poll polls: the one at `round.next()`, while any
    /// is left.
    pub fn next_child(&self, round: &RaceRound) -> (r: Option<usize>)
        ensures
            round.next() < N ==> r == Some(round.next() as usize),
            round.next() >= N ==> r is None,
    {
        if round.next < N {
            Some(round.next)
        } else {
            None
        }
    }

    /// The child at `round.next()` was polled and gave `polled` (`Some` when
    /// it completed): the first child found complete ends the race with its
    /// output; a pending child passes the poll on to the next index.
    pub fn on_polled<T>(&mut self, round: &mut RaceRound, polled: Option<T>) -> (r: Option<T>)
        requires
            !old(self).done(),
            old(round).next() < N,
        ensures
            match polled {
                Some(o) => r == Some(o) && final(self).done(),
                None => r is None && !final(self).done() && final(round).next() == old(round).next() + 1,
            },
    {
        match polled {
            Some(o) => Some(self.on_ready(o)),
            None => {
                round.next = round.next + 1;
                None
            },
        }
    }

    /// A child completed with `output`, the first to do so: the race is over
    /// and its output is this one.
    pub fn on_ready<T>(&mut self, output: T) -> (r: T)
        requires
            !old(self).done(),
        ensures
            final(self).done(),
            r == output,
    {
        self.done = true;
        output
    }
}

} // verus!
