//! The combinator over a vector of children.

use vstd::prelude::*;
use bitvec::vec::BitVec;
use core::marker::PhantomData;

use crate::utils::{count_true, lemma_count_true_bound, lemma_count_true_update, Awakeness};
use crate::future::common::{lemma_count_true_all_iff, lemma_count_true_zero_all};

verus! {

/// How a combinator over a vector of children treats their outputs: an
/// output is either kept, or returned at once; once all outputs are kept they
/// are turned into the combinator's output.
pub trait CombinatorBehaviorVec<R> {
    type Output;
    type StoredItem;

    /// What `maybe_return` gives for the output `res` of child `idx`.
    spec fn maybe_return_spec(idx: usize, res: R) -> Result<Self::StoredItem, Self::Output>;

    /// Whether the combinator can complete by keeping every output.
    spec fn may_complete() -> bool;

    /// Whether `out` is what `when_completed` gives for the kept outputs `vec`.
    spec fn is_completed_output(vec: Seq<Self::StoredItem>, out: Self::Output) -> bool;

    /// A behavior that keeps some output can complete.
    proof fn lemma_store_means_complete(idx: usize, res: R)
        requires
            Self::maybe_return_spec(idx, res) is Ok,
        ensures
            Self::may_complete(),
    ;

    fn maybe_return(idx: usize, res: R) -> (r: Result<Self::StoredItem, Self::Output>)
        ensures
            r == Self::maybe_return_spec(idx, res),
    ;

    fn when_completed(vec: Vec<Self::StoredItem>) -> (r: Self::Output)
        requires
            Self::may_complete(),
        ensures
            Self::is_completed_output(vec@, r),
    ;
}

/// A `bitvec::vec::BitVec` of flags. Verus cannot be told of `BitVec` itself
/// (its parameters are bound by the crate's own traits), so it is held here,
/// opaque, behind the functions below.
#[verifier::external_body]
pub struct FilledBits {
    bits: BitVec,
}

/// The flags of a bit vector, in order.
pub uninterp spec fn filled_bits(b: FilledBits) -> Seq<bool>;

/// `BitVec::repeat`: `len` copies of `bit`.
#[verifier::external_body]
fn bits_repeat(bit: bool, len: usize) -> (b: FilledBits)
    requires
        len <= usize::MAX / 8,
    ensures
        filled_bits(b) == Seq::new(len as nat, |i: int| bit),
{
    FilledBits { bits: BitVec::repeat(bit, len) }
}

/// Bit-slice indexing: the flag at `index`.
#[verifier::external_body]
fn bits_get(b: &FilledBits, index: usize) -> (v: bool)
    requires
        index < filled_bits(*b).len(),
    ensures
        v == filled_bits(*b)[index as int],
{
    b.bits[index]
}

/// `BitSlice::set`: overwrite the flag at `index`.
#[verifier::external_body]
fn bits_set(b: &mut FilledBits, index: usize, value: bool)
    requires
        index < filled_bits(*old(b)).len(),
    ensures
        filled_bits(*final(b)) == filled_bits(*old(b)).update(index as int, value),
{
    b.bits.set(index, value)
}

/// `BitSlice::fill`: overwrite every flag.
#[verifier::external_body]
fn bits_fill(b: &mut FilledBits, value: bool)
    ensures
        filled_bits(*final(b)) == Seq::new(filled_bits(*old(b)).len(), |i: int| value),
{
    b.bits.fill(value)
}

/// The bookkeeping of a combinator over a vector of children, with the
/// outputs kept.
pub struct CombinatorVec<R, B> where B: CombinatorBehaviorVec<R> {
    pending: usize,
    items: Vec<Option<B::StoredItem>>,
    awakeness: Awakeness,
    filled: FilledBits,
    awake_list_buffer: Vec<usize>,
    next: usize,
    behavior: PhantomData<(R, B)>,
}

impl<R, B> CombinatorVec<R, B> where B: CombinatorBehaviorVec<R> {
    /// The number of children.
    pub open spec fn len(&self) -> nat {
        self.filled().len()
    }

    /// The kept outputs, by child; empty once handed out.
    pub closed spec fn items(&self) -> Seq<Option<B::StoredItem>> {
        self.items@
    }

    /// Which children have completed with an output kept.
    pub closed spec fn filled(&self) -> Seq<bool> {
        filled_bits(self.filled)
    }

    /// How many children are still pending.
    pub closed spec fn pending(&self) -> nat {
        self.pending as nat
    }

    /// Which children have been woken since the last poll began.
    pub closed spec fn woken(&self) -> Seq<bool> {
        self.awakeness@
    }

    /// The children woken since the last poll began, in the order in which
    /// they woke.
    pub closed spec fn woken_list(&self) -> Seq<usize> {
        self.awakeness.list()
    }

    /// The children this poll still has to go through, in order.
    pub closed spec fn to_visit(&self) -> Seq<usize> {
        self.awake_list_buffer@.skip(self.next as int)
    }

    /// Whether the outputs have been handed out.
    pub open spec fn completed(&self) -> bool {
        self.pending() == 0 && self.items().len() == 0
    }

    pub closed spec fn wf(&self) -> bool {
        let n = filled_bits(self.filled).len();
        &&& self.awakeness.wf()
        &&& self.awakeness@.len() == n
        &&& self.pending <= n
        &&& (self.pending > 0 ==> self.items@.len() == n)
        &&& (self.items@.len() == n ==> self.pending + count_true(filled_bits(self.filled)) == n)
        &&& (self.items@.len() == n && forall|i: int| 0 <= i < n ==> (#[trigger] self.items@[i] is Some <==> filled_bits(self.filled)[i]))
            || (self.pending == 0 && self.items@.len() == 0 && forall|i: int| 0 <= i < n ==> !#[trigger] filled_bits(self.filled)[i])
        &&& self.next <= self.awake_list_buffer@.len()
        &&& forall|j: int| 0 <= j < self.awake_list_buffer@.len() ==> #[trigger] self.awake_list_buffer@[j] < n
        &&& (self.pending < n || n == 0 ==> B::may_complete())
    }

    pub fn new(len: usize) -> (c: Self)
        requires
            len <= usize::MAX / 8,
            len > 0 || B::may_complete(),
        ensures
            c.wf(),
            c.len() == len,
            c.pending() == len,
            c.filled() == Seq::new(len as nat, |i: int| false),
            c.woken() == Seq::new(len as nat, |i: int| true),
            c.woken_list() == Seq::new(len as nat, |i: int| i as usize),
            c.items() == Seq::new(len as nat, |i: int| Option::<B::StoredItem>::None),
    {
        let mut items: Vec<Option<B::StoredItem>> = Vec::with_capacity(len);
        let mut i: usize = 0;
        while i < len
            invariant
                i <= len,
                items@ == Seq::new(i as nat, |j: int| Option::<B::StoredItem>::None),
            decreases len - i,
        {
            items.push(None);
            i = i + 1;
        }
        proof {
            lemma_count_true_zero_all(len as nat);
        }
        CombinatorVec {
            pending: len,
            items,
            awakeness: Awakeness::new(len),
            filled: bits_repeat(false, len),
            awake_list_buffer: Vec::new(),
            next: 0,
            behavior: PhantomData,
        }
    }

    /// Child `idx` has been woken; returns whether the parent is to be woken.
    pub fn wake(&mut self, idx: usize) -> (newly: bool)
        requires
            old(self).wf(),
            idx < old(self).len(),
        ensures
            final(self).wf(),
            final(self).len() == old(self).len(),
            final(self).items() == old(self).items(),
            final(self).pending() == old(self).pending(),
            final(self).filled() == old(self).filled(),
            final(self).to_visit() == old(self).to_visit(),
            final(self).woken() == old(self).woken().update(idx as int, true),
            newly == !old(self).woken()[idx as int],
            final(self).woken_list() == if newly {
                old(self).woken_list().push(idx)
            } else {
                old(self).woken_list()
            },
    {
        self.awakeness.set_woken(idx)
    }

    /// Begin a poll, which must not come after completion: the children woken
    /// since the last poll, in the order in which they woke, are to be
    /// visited; none is woken any more.
    pub fn poll_begin(&mut self)
        requires
            old(self).wf(),
            !old(self).completed() || old(self).len() == 0,
        ensures
            final(self).wf(),
            final(self).len() == old(self).len(),
            final(self).items() == old(self).items(),
            final(self).pending() == old(self).pending(),
            final(self).filled() == old(self).filled(),
            final(self).woken() == Seq::new(old(self).len(), |i: int| false),
            final(self).woken_list() == Seq::<usize>::empty(),
            final(self).to_visit() == old(self).woken_list(),
            final(self).to_visit().to_set() == Set::new(|i: usize| i < old(self).len() && old(self).woken()[i as int]),
            final(self).to_visit().no_duplicates(),
    {
        proof {
            self.awakeness.lemma_list();
        }
        let list = self.awakeness.take_awake_list();
        self.awake_list_buffer = list;
        self.next = 0;
        proof {
            assert(self.awake_list_buffer@.skip(0) =~= self.awake_list_buffer@);
            assert(self.to_visit().to_set() =~= Set::new(|i: usize| i < old(self).len() && old(self).woken()[i as int]));
        }
    }

    /// The next woken child of this poll that has not completed yet.
    pub fn next_awake(&mut self) -> (r: Option<usize>)
        requires
            old(self).wf(),
        ensures
            final(self).wf(),
            final(self).len() == old(self).len(),
            final(self).items() == old(self).items(),
            final(self).pending() == old(self).pending(),
            final(self).filled() == old(self).filled(),
            final(self).woken() == old(self).woken(),
            final(self).woken_list() == old(self).woken_list(),
            match r {
                Some(idx) => exists|p: int| 0 <= p < old(self).to_visit().len() && old(self).to_visit()[p] == idx
                    && !old(self).filled()[idx as int]
                    && (forall|q: int| 0 <= q < p ==> old(self).filled()[#[trigger] old(self).to_visit()[q] as int])
                    && final(self).to_visit() == old(self).to_visit().skip(p + 1),
                None => final(self).to_visit() == Seq::<usize>::empty()
                    && forall|q: int| 0 <= q < old(self).to_visit().len() ==> old(self).filled()[#[trigger] old(self).to_visit()[q] as int],
            },
    {
        let ghost start = self.next as int;
        while self.next < self.awake_list_buffer.len()
            invariant
                self.wf(),
                filled_bits(self.filled) == old(self).filled(),
                self.items@ == old(self).items(),
                self.pending == old(self).pending(),
                self.awakeness@ == old(self).woken(),
                self.awakeness.list() == old(self).woken_list(),
                self.awake_list_buffer@ == old(self).awake_list_buffer@,
                start == old(self).next,
                start <= self.next,
                forall|q: int| start <= q < self.next ==> filled_bits(self.filled)[#[trigger] self.awake_list_buffer@[q] as int],
            decreases self.awake_list_buffer@.len() - self.next,
        {
            let idx = self.awake_list_buffer[self.next];
            self.next = self.next + 1;
            if !bits_get(&self.filled, idx) {
                proof {
                    let p = self.next - 1 - start;
                    assert(old(self).to_visit()[p] == idx);
                    assert forall|q: int| 0 <= q < p implies old(self).filled()[#[trigger] old(self).to_visit()[q] as int] by {
                        assert(old(self).to_visit()[q] == self.awake_list_buffer@[q + start]);
                    }
                    assert(self.to_visit() =~= old(self).to_visit().skip(p + 1));
                }
                return Some(idx);
            }
        }
        proof {
            assert(self.to_visit() =~= Seq::<usize>::empty());
            assert forall|q: int| 0 <= q < old(self).to_visit().len() implies old(self).filled()[#[trigger] old(self).to_visit()[q] as int] by {
                assert(old(self).to_visit()[q] == self.awake_list_buffer@[q + start]);
            }
        }
        None
    }

    /// Child `idx` completed with `value`: the behavior keeps it, or the
    /// combinator returns at once.
    pub fn on_ready(&mut self, idx: usize, value: R) -> (r: Option<B::Output>)
        requires
            old(self).wf(),
            idx < old(self).len(),
            !old(self).filled()[idx as int],
            old(self).pending() > 0,
        ensures
            final(self).wf(),
            final(self).len() == old(self).len(),
            final(self).woken() == old(self).woken(),
            final(self).woken_list() == old(self).woken_list(),
            final(self).to_visit() == old(self).to_visit(),
            match B::maybe_return_spec(idx, value) {
                Ok(store) => {
                    &&& r is None
                    &&& final(self).items() == old(self).items().update(idx as int, Some(store))
                    &&& final(self).filled() == old(self).filled().update(idx as int, true)
                    &&& final(self).pending() == old(self).pending() - 1
                },
                Err(ret) => {
                    &&& r == Some(ret)
                    &&& final(self).items() == old(self).items()
                    &&& final(self).filled() == old(self).filled()
                    &&& final(self).pending() == old(self).pending()
                },
            },
    {
        match B::maybe_return(idx, value) {
            Ok(store) => {
                proof {
                    B::lemma_store_means_complete(idx, value);
                    lemma_count_true_update(filled_bits(self.filled), idx as int, true);
                    lemma_count_true_bound(filled_bits(self.filled).update(idx as int, true));
                }
                self.items.set(idx, Some(store));
                bits_set(&mut self.filled, idx, true);
                self.pending = self.pending - 1;
                None
            },
            Err(ret) => Some(ret),
        }
    }

    /// End a poll: once every child has completed with its output kept, the
    /// kept outputs, in child order, become the combinator's output, and are
    /// no longer held.
    pub fn poll_end(&mut self) -> (r: Option<B::Output>)
        requires
            old(self).wf(),
            !old(self).completed() || old(self).len() == 0,
        ensures
            final(self).wf(),
            final(self).len() == old(self).len(),
            final(self).woken() == old(self).woken(),
            final(self).woken_list() == old(self).woken_list(),
            final(self).pending() == old(self).pending(),
            old(self).pending() == 0 ==> {
                &&& r is Some
                &&& B::is_completed_output(Seq::new(old(self).len(), |i: int| old(self).items()[i]->Some_0), r->0)
                &&& final(self).completed()
                &&& final(self).filled() == Seq::new(old(self).len(), |i: int| false)
            },
            old(self).pending() > 0 ==> r is None && final(self).items() == old(self).items()
                && final(self).filled() == old(self).filled(),
    {
        if self.pending != 0 {
            return None;
        }
        let ghost before = self.items@;
        let ghost filled_before = filled_bits(self.filled);
        let n = self.items.len();
        proof {
            if n > 0 {
                lemma_count_true_all_iff(filled_before);
            }
            assert(n == self.len());
            assert forall|i: int| 0 <= i < n implies #[trigger] before[i] is Some by {
                assert(filled_before[i]);
            }
        }
        bits_fill(&mut self.filled, false);
        let mut items: Vec<Option<B::StoredItem>> = Vec::new();
        std::mem::swap(&mut items, &mut self.items);
        let mut out: Vec<B::StoredItem> = Vec::with_capacity(n);
        let mut i: usize = 0;
        while i < n
            invariant
                i <= n,
                items@.len() == n,
                before.len() == n,
                forall|j: int| 0 <= j < n ==> #[trigger] before[j] is Some,
                forall|j: int| i <= j < n ==> #[trigger] items@[j] == before[j],
                out@ == Seq::new(i as nat, |j: int| before[j]->Some_0),
            decreases n - i,
        {
            let mut taken: Option<B::StoredItem> = None;
            std::mem::swap(&mut taken, &mut items[i]);
            match taken {
                Some(item) => {
                    out.push(item);
                },
                None => {
                    proof {
                        assert(false);
                    }
                },
            }
            proof {
                assert(out@ =~= Seq::new((i + 1) as nat, |j: int| before[j]->Some_0));
            }
            i = i + 1;
        }
        Some(B::when_completed(out))
    }
}

} // verus!
