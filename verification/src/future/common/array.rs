//! The combinator over a fixed-length array of children.

use vstd::prelude::*;
use core::marker::PhantomData;

use crate::future::common::CombinatorSlots;

verus! {

/// How a combinator over `N` children treats their outputs: an output is
/// either kept, or returned at once; once all `N` outputs are kept they are
/// turned into the combinator's output.
pub trait CombinatorBehaviorArray<R, const N: usize> {
    type Output;
    type StoredItem;

    /// What `maybe_return` gives for the output `res` of child `idx`.
    spec fn maybe_return_spec(idx: usize, res: R) -> Result<Self::StoredItem, Self::Output>;

    /// Whether the combinator can complete by keeping every output.
    spec fn may_complete() -> bool;

    /// Whether `out` is what `when_completed_arr` gives for the kept outputs `arr`.
    spec fn is_completed_output(arr: Seq<Self::StoredItem>, out: Self::Output) -> bool;

    /// A behavior that keeps some output can complete.
    proof fn lemma_store_means_complete(idx: usize, res: R)
        requires
            Self::maybe_return_spec(idx, res) is Ok,
        ensures
            Self::may_complete(),
    ;

    fn maybe_return(idx: usize, res: R) -> (r: Result<Self::StoredItem, Self::Output>)
        ensures
            r == Self::maybe_return_spec(idx, res),
    ;

    fn when_completed_arr(arr: [Self::StoredItem; N]) -> (r: Self::Output)
        requires
            Self::may_complete(),
        ensures
            Self::is_completed_output(arr@, r),
    ;
}

/// `<[S; N]>::try_from(Vec<S>)`: the vector's items as an array when the
/// lengths match, else the vector back.
#[verifier::external_body]
pub(crate) fn array_from_vec<S, const N: usize>(v: Vec<S>) -> (r: Result<[S; N], Vec<S>>)
    ensures
        r is Ok <==> v@.len() == N,
        r matches Ok(a) ==> a@ == v@,
{
    <[S; N]>::try_from(v)
}

/// The bookkeeping of a combinator over `N` children, with the outputs kept.
pub struct CombinatorArray<R, B, const N: usize> where B: CombinatorBehaviorArray<R, N> {
    slots: CombinatorSlots,
    items: Vec<Option<B::StoredItem>>,
    done: bool,
    behavior: PhantomData<(R, B)>,
}

impl<R, B, const N: usize> CombinatorArray<R, B, N> where B: CombinatorBehaviorArray<R, N> {
    /// The kept outputs, by child.
    pub closed spec fn items(&self) -> Seq<Option<B::StoredItem>> {
        self.items@
    }

    /// The bookkeeping of the children.
    pub closed spec fn slots(&self) -> CombinatorSlots {
        self.slots
    }

    /// Whether the kept outputs have been handed out.
    pub closed spec fn completed(&self) -> bool {
        self.done
    }

    pub closed spec fn wf(&self) -> bool {
        &&& self.slots.wf()
        &&& self.slots.len() == N
        &&& self.items@.len() == N
        &&& forall|i: int| 0 <= i < N ==> (#[trigger] self.items@[i] is Some <==> self.slots.filled()[i])
        &&& (self.slots.pending() < N || N == 0 ==> B::may_complete())
        &&& (!self.done && self.slots.pending() == 0 ==> forall|i: int| 0 <= i < N ==> #[trigger] self.slots.filled()[i])
        &&& (self.done ==> self.slots.pending() == 0)
    }

    #[inline]
    pub fn new() -> (c: Self)
        requires
            N > 0 || B::may_complete(),
        ensures
            c.wf(),
            !c.completed(),
            c.slots().len() == N,
            c.slots().pending() == N,
            c.slots().filled() == Seq::new(N as nat, |i: int| false),
            c.slots().woken() == Seq::new(N as nat, |i: int| true),
            c.slots().woken_list() == Seq::new(N as nat, |i: int| i as usize),
            c.items() == Seq::new(N as nat, |i: int| Option::<B::StoredItem>::None),
    {
        let mut items: Vec<Option<B::StoredItem>> = Vec::with_capacity(N);
        let mut i: usize = 0;
        while i < N
            invariant
                i <= N,
                items@ == Seq::new(i as nat, |j: int| Option::<B::StoredItem>::None),
            decreases N - i,
        {
            items.push(None);
            i = i + 1;
        }
        CombinatorArray { slots: CombinatorSlots::new(N), items, done: false, behavior: PhantomData }
    }

    /// Child `idx` has been woken; returns whether the parent is to be woken.
    pub fn wake(&mut self, idx: usize) -> (newly: bool)
        requires
            old(self).wf(),
            idx < N,
        ensures
            final(self).wf(),
            final(self).completed() == old(self).completed(),
            final(self).items() == old(self).items(),
            final(self).slots().pending() == old(self).slots().pending(),
            final(self).slots().filled() == old(self).slots().filled(),
            final(self).slots().woken() == old(self).slots().woken().update(idx as int, true),
            final(self).slots().to_visit() == old(self).slots().to_visit(),
            newly == !old(self).slots().woken()[idx as int],
            final(self).slots().woken_list() == if newly {
                old(self).slots().woken_list().push(idx)
            } else {
                old(self).slots().woken_list()
            },
    {
        self.slots.wake(idx)
    }

    /// Begin a poll, which must not come after completion.
    pub fn poll_begin(&mut self)
        requires
            old(self).wf(),
            old(self).slots().pending() > 0,
        ensures
            final(self).wf(),
            final(self).completed() == old(self).completed(),
            final(self).items() == old(self).items(),
            final(self).slots().pending() == old(self).slots().pending(),
            final(self).slots().filled() == old(self).slots().filled(),
            final(self).slots().woken() == Seq::new(N as nat, |i: int| false),
            final(self).slots().woken_list() == Seq::<usize>::empty(),
            final(self).slots().to_visit() == old(self).slots().woken_list(),
            final(self).slots().to_visit().to_set() == Set::new(|i: usize| i < N && old(self).slots().woken()[i as int]),
            final(self).slots().to_visit().no_duplicates(),
    {
        self.slots.begin();
    }

    /// The next woken child of this poll that has not completed yet.
    pub fn next_awake(&mut self) -> (r: Option<usize>)
        requires
            old(self).wf(),
        ensures
            final(self).wf(),
            final(self).completed() == old(self).completed(),
            final(self).items() == old(self).items(),
            final(self).slots().pending() == old(self).slots().pending(),
            final(self).slots().filled() == old(self).slots().filled(),
            final(self).slots().woken() == old(self).slots().woken(),
            final(self).slots().woken_list() == old(self).slots().woken_list(),
            match r {
                Some(idx) => exists|p: int| 0 <= p < old(self).slots().to_visit().len()
                    && old(self).slots().to_visit()[p] == idx
                    && !old(self).slots().filled()[idx as int]
                    && (forall|q: int| 0 <= q < p ==> old(self).slots().filled()[#[trigger] old(self).slots().to_visit()[q] as int])
                    && final(self).slots().to_visit() == old(self).slots().to_visit().skip(p + 1),
                None => final(self).slots().to_visit() == Seq::<usize>::empty()
                    && forall|q: int| 0 <= q < old(self).slots().to_visit().len() ==> old(self).slots().filled()[#[trigger] old(self).slots().to_visit()[q] as int],
            },
    {
        self.slots.next_awake()
    }

    /// Child `idx` completed with `value`: the behavior keeps it, or the
    /// combinator returns at once.
    pub fn on_ready(&mut self, idx: usize, value: R) -> (r: Option<B::Output>)
        requires
            old(self).wf(),
            idx < N,
            !old(self).slots().filled()[idx as int],
            old(self).slots().pending() > 0,
        ensures
            final(self).wf(),
            final(self).completed() == old(self).completed(),
            final(self).slots().woken() == old(self).slots().woken(),
            final(self).slots().woken_list() == old(self).slots().woken_list(),
            final(self).slots().to_visit() == old(self).slots().to_visit(),
            match B::maybe_return_spec(idx, value) {
                Ok(store) => {
                    &&& r is None
                    &&& final(self).items() == old(self).items().update(idx as int, Some(store))
                    &&& final(self).slots().filled() == old(self).slots().filled().update(idx as int, true)
                    &&& final(self).slots().pending() == old(self).slots().pending() - 1
                },
                Err(ret) => {
                    &&& r == Some(ret)
                    &&& final(self).items() == old(self).items()
                    &&& final(self).slots().filled() == old(self).slots().filled()
                    &&& final(self).slots().pending() == old(self).slots().pending()
                },
            },
    {
        match B::maybe_return(idx, value) {
            Ok(store) => {
                proof {
                    B::lemma_store_means_complete(idx, value);
                }
                self.items.set(idx, Some(store));
                self.slots.fill(idx);
                None
            },
            Err(ret) => Some(ret),
        }
    }

    /// End a poll: once every child has completed with its output kept, the
    /// kept outputs, in child order, become the combinator's output, and are
    /// no longer held.
    pub fn poll_end(&mut self) -> (r: Option<B::Output>)
        requires
            old(self).wf(),
            !old(self).completed() || N == 0,
        ensures
            final(self).wf(),
            final(self).completed() == (old(self).completed() || old(self).slots().pending() == 0),
            final(self).slots().woken() == old(self).slots().woken(),
            final(self).slots().woken_list() == old(self).slots().woken_list(),
            final(self).slots().pending() == old(self).slots().pending(),
            old(self).slots().pending() == 0 ==> {
                &&& r is Some
                &&& B::is_completed_output(Seq::new(N as nat, |i: int| old(self).items()[i]->Some_0), r->0)
                &&& final(self).items() == Seq::new(N as nat, |i: int| Option::<B::StoredItem>::None)
                &&& final(self).slots().filled() == Seq::new(N as nat, |i: int| false)
            },
            old(self).slots().pending() > 0 ==> r is None && final(self).items() == old(self).items()
                && final(self).slots().filled() == old(self).slots().filled(),
    {
        let ghost before = self.items@;
        let ghost filled_before = self.slots.filled();
        if !self.slots.complete() {
            return None;
        }
        let ghost slots_after = self.slots;
        let mut out: Vec<B::StoredItem> = Vec::with_capacity(N);
        let mut i: usize = 0;
        while i < N
            invariant
                self.slots == slots_after,
                i <= N,
                self.items@.len() == N,
                before.len() == N,
                forall|j: int| 0 <= j < N ==> (#[trigger] before[j] is Some <==> filled_before[j]),
                forall|j: int| 0 <= j < i ==> #[trigger] self.items@[j] is None,
                forall|j: int| i <= j < N ==> #[trigger] self.items@[j] == before[j],
                out@ == Seq::new(i as nat, |j: int| before[j]->Some_0),
                forall|j: int| 0 <= j < N ==> #[trigger] filled_before[j],
            decreases N - i,
        {
            let mut taken: Option<B::StoredItem> = None;
            std::mem::swap(&mut taken, &mut self.items[i]);
            match taken {
                Some(item) => {
                    out.push(item);
                },
                None => {
                    proof {
                        assert(false);
                    }
                },
            }
            proof {
                assert(out@ =~= Seq::new((i + 1) as nat, |j: int| before[j]->Some_0));
            }
            i = i + 1;
        }
        proof {
            assert(self.items@ =~= Seq::new(N as nat, |i: int| Option::<B::StoredItem>::None));
        }
        self.done = true;
        match array_from_vec(out) {
            Ok(arr) => Some(B::when_completed_arr(arr)),
            Err(_) => None,
        }
    }
}

} // verus!
