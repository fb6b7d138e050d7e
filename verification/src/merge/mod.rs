//! Merging streams: the pseudo-random order in which they are polled, the
//! fused view of a stream, and what one poll of the merged stream yields.

use vstd::prelude::*;
use crate::utils::PollNext;

pub mod array;
pub mod tuple;

verus! {

/// One step of the 32-bit xorshift generator (shifts 13, 17, 5).
pub open spec fn xorshift32(x: u32) -> u32 {
    let a: u32 = x ^ ((x << 13u32) as u32);
    let b: u32 = a ^ (a >> 17u32);
    b ^ ((b << 5u32) as u32)
}

/// Maps `x` onto `0..n` by taking the high half of the 64-bit product `x * n`.
pub open spec fn scale_to(x: u32, n: u32) -> u32 {
    ((x as int * n as int) / 0x1_0000_0000int) as u32
}

/// The number that `random` yields from generator state `x` for the bound `n`.
pub open spec fn random_value(x: u32, n: u32) -> u32 {
    scale_to(xorshift32(x), n)
}

/// The generator state after `k` steps from `x`.
pub open spec fn xorshift_iter(x: u32, k: nat) -> u32
    decreases k,
{
    if k == 0 {
        x
    } else {
        xorshift32(xorshift_iter(x, (k - 1) as nat))
    }
}

/// The scaled value is below the bound.
pub proof fn lemma_scale_below(x: u32, n: u32)
    requires
        n > 0,
    ensures
        scale_to(x, n) < n,
        scale_to(x, n) as int == (x as int * n as int) / 0x1_0000_0000int,
{
    assert((x as int * n as int) / 0x1_0000_0000int < n as int) by (nonlinear_arith)
        requires
            0 <= x < 0x1_0000_0000int,
            n > 0,
    {
        assert((x as int) * (n as int) < 0x1_0000_0000int * (n as int));
    }
    assert(0 <= (x as int * n as int) / 0x1_0000_0000int) by (nonlinear_arith)
        requires
            0 <= x,
            0 <= n,
    ;
}

/// Advances the generator in `state` by one step and returns a number in
/// `0..n` (0 when `n` is 0).
pub fn random(state: &mut u32, n: u32) -> (r: u32)
    ensures
        *final(state) == xorshift32(*old(state)),
        r == random_value(*old(state), n),
        n > 0 ==> r < n,
{
    let mut x: u32 = *state;
    x = x ^ (x << 13u32);
    x = x ^ (x >> 17u32);
    x = x ^ (x << 5u32);
    *state = x;
    assert(x == xorshift32(*old(state)));
    let wide_x: u64 = x as u64;
    let wide_n: u64 = n as u64;
    assert(wide_x * wide_n <= 0xffff_ffff * 0xffff_ffff) by (nonlinear_arith)
        requires
            wide_x <= 0xffff_ffff,
            wide_n <= 0xffff_ffff,
    ;
    let prod: u64 = wide_x * wide_n;
    let high: u64 = prod >> 32u64;
    assert(high == prod / 0x1_0000_0000) by (bit_vector)
        requires
            high == prod >> 32u64,
    ;
    assert(high < 0x1_0000_0000) by (bit_vector)
        requires
            high == prod >> 32u64,
    ;
    if n > 0 {
        proof {
            lemma_scale_below(x, n);
        }
    }
    high as u32
}

/// A stream that yields `None` for ever once the stream inside it has yielded
/// `None` once: after that the inner stream is not polled again.
pub struct Fuse<S> {
    stream: S,
    done: bool,
}

impl<S> Fuse<S> {
    /// The inner stream.
    pub closed spec fn inner(&self) -> S {
        self.stream
    }

    /// Whether the inner stream has ended.
    pub closed spec fn ended(&self) -> bool {
        self.done
    }

    pub fn new(stream: S) -> (f: Self)
        ensures
            f.inner() == stream,
            !f.ended(),
    {
        Fuse { stream, done: false }
    }

    /// Whether the inner stream has ended; a poll of the fused stream then
    /// yields `Ready(None)` without polling it.
    pub fn is_done(&self) -> (b: bool)
        ensures
            b == self.ended(),
    {
        self.done
    }

    /// The inner stream, to be polled.
    pub fn stream_mut(&mut self) -> (s: &mut S)
        ensures
            *s == old(self).inner(),
            final(self).inner() == *final(s),
            final(self).ended() == old(self).ended(),
    {
        &mut self.stream
    }

    /// Records what a poll of the inner stream gave and returns what the fused
    /// stream yields: the same thing, and from the end on `Ready(None)` for ever.
    pub fn on_polled<T>(&mut self, next: PollNext<T>) -> (r: PollNext<T>)
        requires
            !old(self).ended(),
        ensures
            (final(self).ended(), r) == fused_step(old(self).ended(), next),
            final(self).inner() == old(self).inner(),
    {
        if let PollNext::Ready(None) = next {
            self.done = true;
        }
        next
    }
}

/// One poll of a fused stream: whether it has ended afterwards and what it
/// yields, given whether it had ended before and, where it had not, what its
/// inner stream gave.
pub open spec fn fused_step<T>(ended: bool, inner: PollNext<T>) -> (bool, PollNext<T>) {
    if ended {
        (true, PollNext::Ready(None))
    } else {
        (inner == PollNext::<T>::Ready(None), inner)
    }
}

/// Once a fused stream has yielded `None`, the next poll yields `None` again,
/// whatever the inner stream would give; by induction, every later poll does.
pub proof fn law_fuse_none_forever<T>(ended: bool, first: PollNext<T>, later: PollNext<T>)
    ensures
        fused_step(ended, first).1 == PollNext::<T>::Ready(None) ==> fused_step(
            fused_step(ended, first).0,
            later,
        ) == (true, PollNext::<T>::Ready(None)),
{
}

/// What to do once the first of two streams has been polled.
#[derive(Debug, PartialEq, Eq)]
pub enum InOrder<T> {
    /// The poll is over and yields this.
    Done(PollNext<T>),
    /// Poll the second stream and hand its answer to `finish_in_order` with
    /// this flag, which says whether the first stream was pending.
    PollSecond(bool),
}

/// What polling `first` and then, unless it yielded an item, `second` yields:
/// the first item found; `None` only when both have ended; else pending.
pub open spec fn in_order<T>(first: PollNext<T>, second: PollNext<T>) -> PollNext<T> {
    match first {
        PollNext::Ready(Some(x)) => PollNext::Ready(Some(x)),
        PollNext::Ready(None) => second,
        PollNext::Pending => match second {
            PollNext::Ready(Some(y)) => PollNext::Ready(Some(y)),
            _ => PollNext::Pending,
        },
    }
}

/// First half of polling two streams in order: given what the first yielded,
/// either the answer or the instruction to poll the second.
pub fn poll_next_in_order<T>(first: PollNext<T>) -> (step: InOrder<T>)
    ensures
        (first matches PollNext::Ready(Some(_))) ==> step == InOrder::Done(first),
        !(first matches PollNext::Ready(Some(_))) ==> step == InOrder::<T>::PollSecond(first == PollNext::<T>::Pending),
{
    match first {
        PollNext::Ready(Some(x)) => InOrder::Done(PollNext::Ready(Some(x))),
        PollNext::Ready(None) => InOrder::PollSecond(false),
        PollNext::Pending => InOrder::PollSecond(true),
    }
}

/// Second half of polling two streams in order: what the poll yields once the
/// second stream has answered.
pub fn finish_in_order<T>(first_pending: bool, second: PollNext<T>) -> (r: PollNext<T>)
    ensures
        first_pending ==> r == in_order(PollNext::Pending, second),
        !first_pending ==> r == in_order(PollNext::Ready(None), second),
{
    if !first_pending {
        second
    } else {
        match second {
            PollNext::Ready(Some(y)) => PollNext::Ready(Some(y)),
            _ => PollNext::Pending,
        }
    }
}

/// The two halves together give `in_order`: the second stream is polled
/// exactly when the first did not yield an item.
pub proof fn law_in_order_steps<T>(first: PollNext<T>, second: PollNext<T>)
    ensures
        (first matches PollNext::Ready(Some(_))) ==> in_order(first, second) == first,
        first == PollNext::<T>::Pending ==> in_order(first, second) == in_order(PollNext::<T>::Pending, second),
        first == PollNext::<T>::Ready(None) ==> in_order(first, second) == second,
{
}

/// Whatever the order, the merged poll ends only when both streams have ended,
/// and an item it yields comes from one of them.
pub proof fn law_merge_ends_iff_both_end<T>(a: PollNext<T>, b: PollNext<T>)
    ensures
        (in_order(a, b) == PollNext::<T>::Ready(None)) <==> (a == PollNext::<T>::Ready(None) && b == PollNext::<T>::Ready(None)),
        (in_order(a, b) == PollNext::<T>::Ready(None)) <==> (in_order(b, a) == PollNext::<T>::Ready(None)),
        (in_order(a, b) == PollNext::<T>::Pending) <==> (in_order(b, a) == PollNext::<T>::Pending),
        forall|x: T| in_order(a, b) == PollNext::Ready(Some(x)) ==> (a == PollNext::Ready(Some(x)) || b == PollNext::Ready(Some(x))),
{
}

/// One poll of a merge of two fused streams, as `Merge` and the functions
/// above perform it: given whether each stream had ended, which one is polled
/// first, and what each inner stream gives when it is polled, whether each has
/// ended afterwards and what the merge yields. The second stream is polled
/// only when the first yields no item.
pub open spec fn merge_step<T>(
    l_ended: bool,
    r_ended: bool,
    left_first: bool,
    l_inner: PollNext<T>,
    r_inner: PollNext<T>,
) -> (bool, bool, PollNext<T>) {
    let l = fused_step(l_ended, l_inner);
    let r = fused_step(r_ended, r_inner);
    if left_first {
        if l.1 matches PollNext::Ready(Some(_)) {
            (l.0, r_ended, l.1)
        } else {
            (l.0, r.0, in_order(l.1, r.1))
        }
    } else {
        if r.1 matches PollNext::Ready(Some(_)) {
            (l_ended, r.0, r.1)
        } else {
            (l.0, r.0, in_order(r.1, l.1))
        }
    }
}

/// What a merge yields over a sequence of polls, each given by the side
/// polled first and what each inner stream gives.
pub open spec fn merge_outputs<T>(l_ended: bool, r_ended: bool, polls: Seq<(bool, PollNext<T>, PollNext<T>)>) -> Seq<PollNext<T>>
    decreases polls.len(),
{
    if polls.len() == 0 {
        Seq::empty()
    } else {
        let st = merge_step(l_ended, r_ended, polls[0].0, polls[0].1, polls[0].2);
        seq![st.2] + merge_outputs(st.0, st.1, polls.drop_first())
    }
}

/// One poll of a merge: it yields `None` exactly when both streams have
/// ended by its end; an item a polled inner stream gives is what the merge
/// yields, so no item is lost; once both have ended, nothing changes.
pub proof fn law_merge_step<T>(l_ended: bool, r_ended: bool, left_first: bool, l_inner: PollNext<T>, r_inner: PollNext<T>)
    ensures
        ({
            let st = merge_step(l_ended, r_ended, left_first, l_inner, r_inner);
            &&& st.2 == PollNext::<T>::Ready(None) <==> (st.0 && st.1)
            &&& (left_first && !l_ended && l_inner matches PollNext::Ready(Some(_))) ==> st.2 == l_inner
            &&& (!left_first && !r_ended && r_inner matches PollNext::Ready(Some(_))) ==> st.2 == r_inner
            &&& (left_first && !(fused_step(l_ended, l_inner).1 matches PollNext::Ready(Some(_))) && !r_ended
                && r_inner matches PollNext::Ready(Some(_))) ==> st.2 == r_inner
            &&& (!left_first && !(fused_step(r_ended, r_inner).1 matches PollNext::Ready(Some(_))) && !l_ended
                && l_inner matches PollNext::Ready(Some(_))) ==> st.2 == l_inner
            &&& (l_ended && r_ended) ==> st == (true, true, PollNext::<T>::Ready(None))
        }),
{
}

/// Once both streams have ended, every later poll of the merge yields `None`.
proof fn lemma_merge_outputs_ended<T>(polls: Seq<(bool, PollNext<T>, PollNext<T>)>)
    ensures
        forall|k: int| 0 <= k < polls.len() ==> #[trigger] merge_outputs(true, true, polls)[k] == PollNext::<T>::Ready(None),
        merge_outputs(true, true, polls).len() == polls.len(),
    decreases polls.len(),
{
    if polls.len() > 0 {
        lemma_merge_outputs_ended(polls.drop_first());
        let out = merge_outputs(true, true, polls);
        assert forall|k: int| 0 <= k < polls.len() implies #[trigger] out[k] == PollNext::<T>::Ready(None) by {
            if k > 0 {
                assert(out[k] == merge_outputs(true, true, polls.drop_first())[k - 1]);
            }
        }
    }
}

proof fn lemma_merge_outputs_len<T>(l_ended: bool, r_ended: bool, polls: Seq<(bool, PollNext<T>, PollNext<T>)>)
    ensures
        merge_outputs(l_ended, r_ended, polls).len() == polls.len(),
    decreases polls.len(),
{
    if polls.len() > 0 {
        let st = merge_step(l_ended, r_ended, polls[0].0, polls[0].1, polls[0].2);
        lemma_merge_outputs_len(st.0, st.1, polls.drop_first());
    }
}

/// Over any sequence of polls, once the merge has yielded `None` it yields
/// `None` on every later poll: the merge ends once, when both streams have
/// ended, and for good.
pub proof fn law_merge_none_forever<T>(l_ended: bool, r_ended: bool, polls: Seq<(bool, PollNext<T>, PollNext<T>)>, i: int, j: int)
    requires
        0 <= i < j < polls.len(),
        merge_outputs(l_ended, r_ended, polls)[i] == PollNext::<T>::Ready(None),
    ensures
        merge_outputs(l_ended, r_ended, polls)[j] == PollNext::<T>::Ready(None),
    decreases i,
{
    let st = merge_step(l_ended, r_ended, polls[0].0, polls[0].1, polls[0].2);
    let rest = polls.drop_first();
    lemma_merge_outputs_len(st.0, st.1, rest);
    let out = merge_outputs(l_ended, r_ended, polls);
    assert(out == seq![st.2] + merge_outputs(st.0, st.1, rest));
    if i == 0 {
        law_merge_step(l_ended, r_ended, polls[0].0, polls[0].1, polls[0].2);
        assert(st.0 && st.1);
        lemma_merge_outputs_ended(rest);
        assert(out[j] == merge_outputs(st.0, st.1, rest)[j - 1]);
    } else {
        assert(out[i] == merge_outputs(st.0, st.1, rest)[i - 1]);
        law_merge_none_forever(st.0, st.1, rest, i - 1, j - 1);
        assert(out[j] == merge_outputs(st.0, st.1, rest)[j - 1]);
    }
}

/// Which of the two merged streams is polled first.
#[derive(Debug, Clone, Copy, PartialEq, Eq, Structural)]
pub enum Side {
    Left,
    Right,
}

/// A stream that merges two streams into one stream of all their items,
/// yielding until both have ended.
pub struct Merge<L, R> {
    left: Fuse<L>,
    right: Fuse<R>,
}

impl<L, R> Merge<L, R> {
    pub closed spec fn left(&self) -> Fuse<L> {
        self.left
    }

    pub closed spec fn right(&self) -> Fuse<R> {
        self.right
    }

    pub fn new(left: L, right: R) -> (m: Self)
        ensures
            m.left().inner() == left,
            m.right().inner() == right,
            !m.left().ended(),
            !m.right().ended(),
    {
        Merge { left: Fuse::new(left), right: Fuse::new(right) }
    }

    /// Draws which stream this poll visits first: the left one when
    /// `random(2)` gives 0.
    pub fn first_side(rng: &mut u32) -> (side: Side)
        ensures
            *final(rng) == xorshift32(*old(rng)),
            side == (if random_value(*old(rng), 2) == 0 { Side::Left } else { Side::Right }),
    {
        if random(rng, 2) == 0 {
            Side::Left
        } else {
            Side::Right
        }
    }

    pub fn left_mut(&mut self) -> (f: &mut Fuse<L>)
        ensures
            *f == old(self).left(),
            final(self).left() == *final(f),
            final(self).right() == old(self).right(),
    {
        &mut self.left
    }

    pub fn right_mut(&mut self) -> (f: &mut Fuse<R>)
        ensures
            *f == old(self).right(),
            final(self).right() == *final(f),
            final(self).left() == old(self).left(),
    {
        &mut self.right
    }
}

} // verus!
