//! The decisions of the concurrent stream consumers: how many futures may be
//! in flight, when a new one has to wait, and what ends the iteration.

use vstd::prelude::*;

verus! {

/// The state of a consumer, told back to the stream that feeds it.
#[derive(Debug, Clone, Copy, PartialEq, Eq, Structural)]
pub enum ConsumerState {
    /// The consumer is done making progress; its output is to be taken.
    Break,
    /// The consumer is ready to keep making progress.
    Continue,
    /// The consumer holds no values and is not to be called again until it
    /// has been given more.
    Empty,
}

/// The limit a consumer applies to the futures in flight: the given non-zero
/// limit, or none at all (`usize::MAX`).
pub fn concurrency_limit(limit: Option<usize>) -> (n: usize)
    requires
        limit matches Some(k) ==> k > 0,
    ensures
        n == match limit {
            Some(k) => k,
            None => usize::MAX,
        },
        n > 0,
{
    match limit {
        Some(k) => k,
        None => usize::MAX,
    }
}

/// How many futures a consumer has in flight, against its limit.
pub struct InFlight {
    count: usize,
    limit: usize,
}

impl InFlight {
    pub closed spec fn count(&self) -> nat {
        self.count as nat
    }

    pub closed spec fn limit(&self) -> nat {
        self.limit as nat
    }

    pub fn new(limit: Option<usize>) -> (s: Self)
        requires
            limit matches Some(k) ==> k > 0,
        ensures
            s.count() == 0,
            s.limit() == match limit {
                Some(k) => k as nat,
                None => usize::MAX as nat,
            },
            s.limit() > 0,
    {
        InFlight { count: 0, limit: concurrency_limit(limit) }
    }

    /// Whether a new future has to wait for one in flight to finish.
    pub fn must_wait(&self) -> (b: bool)
        ensures
            b == (self.count() >= self.limit()),
    {
        self.count >= self.limit
    }

    /// A new future is put in flight.
    pub fn on_insert(&mut self)
        requires
            old(self).count() < old(self).limit(),
        ensures
            final(self).count() == old(self).count() + 1,
            final(self).limit() == old(self).limit(),
            final(self).count() <= final(self).limit(),
    {
        self.count = self.count + 1;
    }

    /// A future in flight has finished.
    pub fn on_complete(&mut self)
        requires
            old(self).count() > 0,
        ensures
            final(self).count() == old(self).count() - 1,
            final(self).limit() == old(self).limit(),
    {
        self.count = self.count - 1;
    }
}

/// The bookkeeping of `try_for_each`: the futures in flight and the first
/// error, which ends the iteration.
pub struct TryForEachState<E> {
    in_flight: InFlight,
    err: Option<E>,
}

impl<E> TryForEachState<E> {
    pub closed spec fn in_flight(&self) -> InFlight {
        self.in_flight
    }

    pub closed spec fn error(&self) -> Option<E> {
        self.err
    }

    pub fn new(limit: Option<usize>) -> (s: Self)
        requires
            limit matches Some(k) ==> k > 0,
        ensures
            s.in_flight().count() == 0,
            s.in_flight().limit() == match limit {
                Some(k) => k as nat,
                None => usize::MAX as nat,
            },
            s.error().is_none(),
    {
        TryForEachState { in_flight: InFlight::new(limit), err: None }
    }

    pub fn in_flight_mut(&mut self) -> (f: &mut InFlight)
        ensures
            *f == old(self).in_flight(),
            final(self).in_flight() == *final(f),
            final(self).error() == old(self).error(),
    {
        &mut self.in_flight
    }

    /// Whether a new future has to wait for one in flight to finish.
    pub fn must_wait(&self) -> (b: bool)
        ensures
            b == (self.in_flight().count() >= self.in_flight().limit()),
    {
        self.in_flight.must_wait()
    }

    /// What `send` and `progress` do with the next output of the futures in
    /// flight (`None` once none is left): an error is kept and ends the
    /// iteration (`Break`); the end of the outputs answers `on_end`; a success
    /// goes on waiting (`None`).
    pub fn on_output(&mut self, out: Option<Result<(), E>>, on_end: ConsumerState) -> (r: Option<ConsumerState>)
        ensures
            final(self).in_flight() == old(self).in_flight(),
            match out {
                None => r == Some(on_end) && final(self).error() == old(self).error(),
                Some(Ok(())) => r.is_none() && final(self).error() == old(self).error(),
                Some(Err(e)) => r == Some(ConsumerState::Break) && final(self).error() == Some(e),
            },
    {
        match out {
            None => Some(on_end),
            Some(Ok(())) => None,
            Some(Err(e)) => {
                self.err = Some(e);
                Some(ConsumerState::Break)
            },
        }
    }

    /// The error that stopped the iteration, if one did; it is the result of
    /// `finish` before anything else.
    pub fn take_error(&mut self) -> (e: Option<E>)
        ensures
            e == old(self).error(),
            final(self).error().is_none(),
            final(self).in_flight() == old(self).in_flight(),
    {
        self.err.take()
    }
}

/// What `finish` does with the next output of the futures still in flight:
/// the first error is the result; the end of the outputs gives `Ok(())`; a
/// success goes on waiting (`None`).
pub fn finish_step<E>(out: Option<Result<(), E>>) -> (r: Option<Result<(), E>>)
    ensures
        match out {
            None => r == Some(Ok::<(), E>(())),
            Some(Ok(())) => r.is_none(),
            Some(Err(e)) => r == Some(Err::<(), E>(e)),
        },
{
    match out {
        None => Some(Ok(())),
        Some(Ok(())) => None,
        Some(Err(e)) => Some(Err(e)),
    }
}

/// The numbering of `enumerate`: each future sent gets the next index, fixed
/// when the future is created.
pub struct EnumerateCount {
    count: usize,
}

impl EnumerateCount {
    pub closed spec fn count(&self) -> nat {
        self.count as nat
    }

    pub fn new() -> (c: Self)
        ensures
            c.count() == 0,
    {
        EnumerateCount { count: 0 }
    }

    /// How many futures have been numbered.
    pub fn sent(&self) -> (n: usize)
        ensures
            n == self.count(),
    {
        self.count
    }

    /// The index of the future being sent.
    pub fn next_index(&mut self) -> (i: usize)
        requires
            old(self).count() < usize::MAX,
        ensures
            i == old(self).count(),
            final(self).count() == old(self).count() + 1,
    {
        let i = self.count;
        self.count = self.count + 1;
        i
    }
}

} // verus!
