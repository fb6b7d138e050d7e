# futures-concurrency

Structured concurrency operations for async Rust: join, race, race-ok,
try-join and first-ok over vectors, arrays and tuples of futures; groups and
sets of futures polled as one stream; merging of streams; concurrent
iteration over streams with a limit on the work in flight.

## Layout

- `src/` is the library, verified with Verus. It holds the bookkeeping of
  every combinator as a state machine with contracts: which children are
  woken and polled, what becomes of each output, when the combinator
  completes and what it yields; the keyed storage of futures groups; the
  pseudo-random visiting order of merged streams; the backpressure of the
  concurrent stream consumers.
- `app/` holds the async surface: the `Future` and `Stream` impls that poll
  the children the library names and hand their results back, the wakers, the
  extension traits, and the error types with their `Display` impls.
- `tests/` drives the library's state machines with ready and pending futures
  and streams.
