//! The merged stream over an array of streams. Before each poll the visiting
//! order is shuffled: the streams are stably sorted by a fresh random key each,
//! so that when several are ready at once none is drained before the others.

use vstd::prelude::*;
use crate::merge::{random, random_value, xorshift32, xorshift_iter, Fuse};
use crate::utils::PollNext;

verus! {

/// The keys are drawn from `0..KEY_RANGE`.
pub const KEY_RANGE: u32 = 1000;

/// The key drawn for the `p`-th position when drawing starts from state `x`.
pub open spec fn drawn_key(x: u32, p: int) -> u32 {
    random_value(xorshift_iter(x, p as nat), KEY_RANGE)
}

/// `perm` maps each of `0..n` to a distinct index in `0..n`.
pub open spec fn is_perm(perm: Seq<int>, n: nat) -> bool {
    &&& perm.len() == n
    &&& forall|p: int| 0 <= p < n ==> 0 <= #[trigger] perm[p] < n
    &&& forall|p: int, q: int| 0 <= p < q < n ==> #[trigger] perm[p] != #[trigger] perm[q]
}

/// `order` lists each of `0..n` exactly once.
pub open spec fn is_order(order: Seq<usize>, n: nat) -> bool {
    &&& order.len() == n
    &&& forall|p: int| 0 <= p < n ==> #[trigger] order[p] < n
    &&& forall|p: int, q: int| 0 <= p < q < n ==> #[trigger] order[p] != #[trigger] order[q]
}

/// Position `p` comes before `q` in a stable sort by `keys` of the positions
/// that `perm` took them from.
pub open spec fn stable_before(keys: Seq<u32>, perm: Seq<int>, p: int, q: int) -> bool {
    keys[p] < keys[q] || (keys[p] == keys[q] && perm[p] < perm[q])
}

/// `new_order` is `old_order` stably sorted by the keys drawn from `x`, one
/// per position of `old_order`, through the permutation `perm`.
pub open spec fn shuffled_by(old_order: Seq<usize>, new_order: Seq<usize>, x: u32, perm: Seq<int>) -> bool {
    let n = old_order.len();
    &&& new_order.len() == n
    &&& is_perm(perm, n)
    &&& forall|p: int| 0 <= p < n ==> #[trigger] new_order[p] == old_order[perm[p]]
    &&& forall|p: int, q: int|
        0 <= p < q < n ==> (drawn_key(x, perm[p]) < drawn_key(x, perm[q]) || (drawn_key(x, perm[p])
            == drawn_key(x, perm[q]) && perm[p] < perm[q]))
}

/// Draws one key per position, in order of position.
fn draw_keys(rng: &mut u32, n: usize) -> (keys: Vec<u32>)
    ensures
        keys.len() == n,
        forall|p: int| 0 <= p < n ==> #[trigger] keys[p] == drawn_key(*old(rng), p),
        *final(rng) == xorshift_iter(*old(rng), n as nat),
{
    let ghost x0 = *rng;
    let mut keys: Vec<u32> = Vec::with_capacity(n);
    let mut p: usize = 0;
    while p < n
        invariant
            p <= n,
            keys.len() == p,
            forall|q: int| 0 <= q < p ==> #[trigger] keys[q] == drawn_key(x0, q),
            *rng == xorshift_iter(x0, p as nat),
        decreases n - p,
    {
        let k = random(rng, KEY_RANGE);
        keys.push(k);
        proof {
            assert(xorshift_iter(x0, (p + 1) as nat) == xorshift32(xorshift_iter(x0, p as nat)));
        }
        p = p + 1;
    }
    keys
}

/// Swaps positions `j - 1` and `j` of both `keys` and `order`.
fn swap_down(keys: &mut Vec<u32>, order: &mut Vec<usize>, j: usize)
    requires
        0 < j < old(keys).len(),
        old(order).len() == old(keys).len(),
    ensures
        final(keys)@ == old(keys)@.update(j - 1, old(keys)@[j as int]).update(j as int, old(keys)@[j - 1]),
        final(order)@ == old(order)@.update(j - 1, old(order)@[j as int]).update(j as int, old(order)@[j - 1]),
{
    let k = keys[j - 1];
    let kj = keys[j];
    keys.set(j - 1, kj);
    keys.set(j, k);
    let o = order[j - 1];
    let oj = order[j];
    order.set(j - 1, oj);
    order.set(j, o);
}

/// Stably sorts `order` by `keys` (insertion sort), carrying the keys along.
#[verifier::rlimit(60)]
fn sort_by_keys(keys: &mut Vec<u32>, order: &mut Vec<usize>) -> (perm: Ghost<Seq<int>>)
    requires
        old(keys).len() == old(order).len(),
    ensures
        final(keys).len() == old(keys).len(),
        is_perm(perm@, old(keys).len() as nat),
        forall|p: int| 0 <= p < old(keys).len() ==> #[trigger] final(order)@[p] == old(order)@[perm@[p]],
        forall|p: int| 0 <= p < old(keys).len() ==> #[trigger] final(keys)@[p] == old(keys)@[perm@[p]],
        final(order)@.len() == old(order)@.len(),
        forall|p: int, q: int|
            0 <= p < q < old(keys).len() ==> stable_before(final(keys)@, perm@, p, q),
{
    let n = keys.len();
    let ghost k0 = keys@;
    let ghost o0 = order@;
    let ghost mut perm: Seq<int> = Seq::new(n as nat, |p: int| p);
    if n == 0 {
        return Ghost(perm);
    }
    let mut i: usize = 1;
    while i < n
        invariant
            1 <= i <= n,
            n == keys.len(),
            n == order.len(),
            k0.len() == n,
            o0.len() == n,
            is_perm(perm, n as nat),
            forall|p: int| i <= p < n ==> #[trigger] perm[p] == p,
            forall|p: int| 0 <= p < i ==> #[trigger] perm[p] < i,
            forall|p: int| 0 <= p < n ==> #[trigger] keys@[p] == k0[perm[p]],
            forall|p: int| 0 <= p < n ==> #[trigger] order@[p] == o0[perm[p]],
            forall|p: int, q: int| 0 <= p < q < i ==> stable_before(keys@, perm, p, q),
        decreases n - i,
    {
        let mut j: usize = i;
        while j > 0 && keys[j - 1] > keys[j]
            invariant
                0 <= j <= i < n,
                n == keys.len(),
                n == order.len(),
                k0.len() == n,
                o0.len() == n,
                is_perm(perm, n as nat),
                forall|p: int| i < p < n ==> #[trigger] perm[p] == p,
                perm[j as int] == i,
                forall|p: int| 0 <= p <= i && p != j ==> #[trigger] perm[p] < i,
                forall|p: int| 0 <= p < n ==> #[trigger] keys@[p] == k0[perm[p]],
                forall|p: int| 0 <= p < n ==> #[trigger] order@[p] == o0[perm[p]],
                forall|p: int, q: int|
                    0 <= p < q <= i && p != j && q != j ==> stable_before(keys@, perm, p, q),
                forall|q: int| j < q <= i ==> keys@[j as int] < #[trigger] keys@[q],
            decreases j,
        {
            let ghost kb = keys@;
            let ghost pb = perm;
            swap_down(keys, order, j);
            proof {
                let a = perm[j - 1];
                let b = perm[j as int];
                perm = perm.update(j - 1, b).update(j as int, a);
                assert forall|p: int, q: int| 0 <= p < q < n implies #[trigger] perm[p] != #[trigger] perm[q] by {
                }
                assert forall|p: int, q: int|
                    0 <= p < q <= i && p != j - 1 && q != j - 1 implies stable_before(keys@, perm, p, q) by {
                    let op = if p == j { j - 1 } else { p };
                    let oq = if q == j { j - 1 } else { q };
                    assert(stable_before(kb, pb, op, oq));
                }
            }
            j = j - 1;
        }
        proof {
            assert forall|p: int, q: int| 0 <= p < q < i + 1 implies stable_before(keys@, perm, p, q) by {
                if q == j && p < j - 1 {
                    assert(stable_before(keys@, perm, p, j - 1));
                }
            }
        }
        i = i + 1;
    }
    Ghost(perm)
}

/// Where a poll round of the merged array stands: the next position of the
/// visiting order to look at, and whether a stream visited so far was pending.
pub struct MergeRound {
    pos: usize,
    pending: bool,
}

impl MergeRound {
    pub closed spec fn pos(&self) -> nat {
        self.pos as nat
    }

    pub closed spec fn saw_pending(&self) -> bool {
        self.pending
    }

    /// What the round yields when every stream has been visited without an
    /// item: pending if one of them was pending, else the end.
    pub fn finish<T>(self) -> (r: PollNext<T>)
        ensures
            r == (if self.saw_pending() { PollNext::<T>::Pending } else { PollNext::<T>::Ready(None) }),
    {
        if self.pending {
            PollNext::Pending
        } else {
            PollNext::Ready(None)
        }
    }
}

/// A stream that merges an array of `N` streams into one stream of all their
/// items, yielding until every one of them has ended.
pub struct Merge<S, const N: usize> {
    streams: Vec<Fuse<S>>,
    order: Vec<usize>,
}

impl<S, const N: usize> Merge<S, N> {
    /// The fused streams, by their index in the array.
    pub closed spec fn streams(&self) -> Seq<Fuse<S>> {
        self.streams@
    }

    /// The order in which the next poll visits the streams.
    pub closed spec fn order(&self) -> Seq<usize> {
        self.order@
    }

    pub closed spec fn wf(&self) -> bool {
        &&& self.streams@.len() == N
        &&& is_order(self.order@, N as nat)
    }

    /// Every stream visited so far in this round has ended, unless one was
    /// pending.
    pub open spec fn round_ok(&self, round: MergeRound) -> bool {
        &&& round.pos() <= N
        &&& !round.saw_pending() ==> forall|p: int|
            0 <= p < round.pos() ==> #[trigger] self.streams()[self.order()[p] as int].ended()
    }

    pub fn new(streams: Vec<S>) -> (m: Self)
        requires
            streams.len() == N,
        ensures
            m.wf(),
            m.streams().len() == N,
            forall|i: int| 0 <= i < N ==> (#[trigger] m.streams()[i]).inner() == streams@[i] && !m.streams()[i].ended(),
            m.order() == Seq::new(N as nat, |p: int| p as usize),
    {
        let mut fused: Vec<Fuse<S>> = Vec::with_capacity(N);
        let mut order: Vec<usize> = Vec::with_capacity(N);
        let mut rest = streams;
        let ghost all = rest@;
        while rest.len() > 0
            invariant
                fused.len() + rest.len() == N,
                fused.len() == order.len(),
                all.len() == N,
                forall|i: int| 0 <= i < rest.len() ==> #[trigger] rest@[i] == all[fused.len() + i],
                forall|i: int| 0 <= i < fused.len() ==> (#[trigger] fused@[i]).inner() == all[i] && !fused@[i].ended(),
                forall|i: int| 0 <= i < order.len() ==> #[trigger] order@[i] == i,
            decreases rest.len(),
        {
            let s = rest.remove(0);
            fused.push(Fuse::new(s));
            order.push(order.len());
        }
        let m = Merge { streams: fused, order };
        assert(m.order@ =~= Seq::new(N as nat, |p: int| p as usize));
        m
    }

    /// Shuffles the visiting order and starts a poll round: each position of
    /// the current order draws a key in `0..KEY_RANGE`, and the order is stably
    /// sorted by these keys.
    pub fn begin_round(&mut self, rng: &mut u32) -> (round: MergeRound)
        requires
            old(self).wf(),
        ensures
            final(self).wf(),
            final(self).streams() == old(self).streams(),
            *final(rng) == xorshift_iter(*old(rng), N as nat),
            exists|perm: Seq<int>| #[trigger] shuffled_by(old(self).order(), final(self).order(), *old(rng), perm),
            round.pos() == 0,
            !round.saw_pending(),
            final(self).round_ok(round),
    {
        let ghost x0 = *rng;
        let ghost o0 = self.order@;
        let mut keys = draw_keys(rng, N);
        let ghost k0 = keys@;
        let perm = sort_by_keys(&mut keys, &mut self.order);
        proof {
            let perm = perm@;
            assert(shuffled_by(o0, self.order@, x0, perm)) by {
                assert forall|p: int, q: int| 0 <= p < q < N implies (drawn_key(x0, perm[p]) < drawn_key(
                    x0,
                    perm[q],
                ) || (drawn_key(x0, perm[p]) == drawn_key(x0, perm[q]) && perm[p] < perm[q])) by {
                    assert(stable_before(keys@, perm, p, q));
                    assert(keys@[p] == k0[perm[p]]);
                    assert(keys@[q] == k0[perm[q]]);
                }
            }
            assert forall|p: int| 0 <= p < N implies #[trigger] self.order@[p] < N by {
                assert(self.order@[p] == o0[perm[p]]);
            }
            assert forall|p: int, q: int| 0 <= p < q < N implies #[trigger] self.order@[p]
                != #[trigger] self.order@[q] by {
                assert(self.order@[p] == o0[perm[p]]);
                assert(self.order@[q] == o0[perm[q]]);
                if perm[p] < perm[q] {
                    assert(o0[perm[p]] != o0[perm[q]]);
                } else {
                    assert(o0[perm[q]] != o0[perm[p]]);
                }
            }
            assert(shuffled_by(old(self).order(), self.order(), *old(rng), perm));
            assert(exists|w: Seq<int>| #[trigger] shuffled_by(old(self).order(), self.order(), *old(rng), w));
        }
        MergeRound { pos: 0, pending: false }
    }

    /// The index of the next stream this round polls: the next one in the
    /// visiting order that has not ended (an ended one yields `None` and is
    /// passed over). `None` when the round has visited them all.
    pub fn next_stream(&self, round: &mut MergeRound) -> (next: Option<usize>)
        requires
            self.wf(),
            self.round_ok(*old(round)),
        ensures
            self.round_ok(*final(round)),
            final(round).saw_pending() == old(round).saw_pending(),
            old(round).pos() <= final(round).pos(),
            forall|p: int| old(round).pos() <= p < final(round).pos() ==> #[trigger] self.streams()[self.order()[p] as int].ended(),
            match next {
                Some(i) => {
                    &&& final(round).pos() < N
                    &&& i == self.order()[final(round).pos() as int]
                    &&& !self.streams()[i as int].ended()
                },
                None => final(round).pos() == N,
            },
    {
        while round.pos < self.order.len() && self.streams[self.order[round.pos]].is_done()
            invariant
                self.wf(),
                self.round_ok(*round),
                round.saw_pending() == old(round).saw_pending(),
                old(round).pos() <= round.pos(),
                forall|p: int| old(round).pos() <= p < round.pos() ==> #[trigger] self.streams()[self.order()[p] as int].ended(),
            decreases N - round.pos,
        {
            round.pos = round.pos + 1;
        }
        if round.pos < self.order.len() {
            Some(self.order[round.pos])
        } else {
            None
        }
    }

    /// The fused stream at index `i`, to be polled.
    pub fn stream_mut(&mut self, i: usize) -> (s: &mut S)
        requires
            old(self).wf(),
            i < N,
        ensures
            final(self).wf(),
            final(self).order() == old(self).order(),
            *s == old(self).streams()[i as int].inner(),
            final(self).streams() == old(self).streams().update(i as int, final(self).streams()[i as int]),
            final(self).streams()[i as int].inner() == *final(s),
            final(self).streams()[i as int].ended() == old(self).streams()[i as int].ended(),
    {
        self.streams[i].stream_mut()
    }

    /// Records what the stream the round is at gave. An item ends the round
    /// with that item; the end of the stream moves on; pending moves on and
    /// is remembered.
    pub fn on_polled<T>(&mut self, round: &mut MergeRound, i: usize, next: PollNext<T>) -> (r: Option<PollNext<T>>)
        requires
            old(self).wf(),
            old(self).round_ok(*old(round)),
            old(round).pos() < N,
            i == old(self).order()[old(round).pos() as int],
            !old(self).streams()[i as int].ended(),
        ensures
            final(self).wf(),
            final(self).order() == old(self).order(),
            final(self).streams() == old(self).streams().update(
                i as int,
                final(self).streams()[i as int],
            ),
            final(self).streams()[i as int].inner() == old(self).streams()[i as int].inner(),
            final(self).streams()[i as int].ended() == (next == PollNext::<T>::Ready(None)),
            match next {
                PollNext::Ready(Some(x)) => r == Some(PollNext::Ready(Some(x))),
                PollNext::Ready(None) => r.is_none() && final(round).pos() == old(round).pos() + 1
                    && final(round).saw_pending() == old(round).saw_pending(),
                PollNext::Pending => r.is_none() && final(round).pos() == old(round).pos() + 1
                    && final(round).saw_pending(),
            },
            r.is_none() ==> final(self).round_ok(*final(round)),
    {
        let ghost before = self.streams@;
        let ended = match &next {
            PollNext::Ready(None) => true,
            _ => false,
        };
        let mut f = self.streams.remove(i);
        let out = f.on_polled(next);
        self.streams.insert(i, f);
        proof {
            assert(self.streams@ =~= before.update(i as int, self.streams@[i as int]));
        }
        match out {
            PollNext::Ready(Some(x)) => Some(PollNext::Ready(Some(x))),
            PollNext::Ready(None) => {
                proof {
                    assert forall|p: int| 0 <= p < round.pos + 1 implies #[trigger] self.streams()[self.order()[p] as int].ended() || round.saw_pending() by {
                        if p < round.pos {
                            if !round.saw_pending() {
                                assert(before[self.order()[p] as int].ended());
                                if self.order()[p] == i {
                                    assert(p != round.pos);
                                    assert(self.order@[p] != self.order@[round.pos as int]);
                                }
                            }
                        }
                    }
                }
                round.pos = round.pos + 1;
                None
            },
            PollNext::Pending => {
                round.pos = round.pos + 1;
                round.pending = true;
                None
            },
        }
    }
}

/// A round that ends without an item yields `None` only when every stream
/// of the merged array has ended.
pub proof fn law_merge_ends_only_when_all_ended<S, const N: usize>(m: Merge<S, N>, round: MergeRound)
    requires
        m.wf(),
        m.round_ok(round),
        round.pos() == N,
        !round.saw_pending(),
    ensures
        forall|i: int| 0 <= i < N ==> (#[trigger] m.streams()[i]).ended(),
{
    assert forall|i: int| 0 <= i < N implies (#[trigger] m.streams()[i]).ended() by {
        lemma_order_covers(m, i);
        let p = choose|p: int| 0 <= p < N && m.order()[p] == i;
        assert(m.streams()[m.order()[p] as int].ended());
    }
}

/// Every index appears in the visiting order.
proof fn lemma_order_covers<S, const N: usize>(m: Merge<S, N>, i: int)
    requires
        m.wf(),
        0 <= i < N,
    ensures
        exists|p: int| 0 <= p < N && m.order()[p] == i,
{
    let s = m.order().map_values(|v: usize| v as int);
    assert(s.no_duplicates()) by {
        assert forall|a: int, b: int| 0 <= a < s.len() && 0 <= b < s.len() && a != b implies s[a] != s[b] by {
            if a < b {
                assert(m.order()[a] != m.order()[b]);
            } else {
                assert(m.order()[b] != m.order()[a]);
            }
        }
    }
    s.unique_seq_to_set();
    let range = vstd::set_lib::set_int_range(0, N as int);
    vstd::set_lib::lemma_int_range(0, N as int);
    assert(s.to_set().subset_of(range)) by {
        assert forall|v: int| s.to_set().contains(v) implies range.contains(v) by {
            let p = choose|p: int| 0 <= p < s.len() && s[p] == v;
            assert(m.order()[p] < N);
        }
    }
    vstd::set_lib::lemma_len_subset(s.to_set(), range);
    vstd::set_lib::lemma_subset_equality(s.to_set(), range);
    assert(range.contains(i));
    assert(s.to_set().contains(i));
    let p = choose|p: int| 0 <= p < s.len() && s[p] == i;
    assert(m.order()[p] == i);
}

} // verus!
