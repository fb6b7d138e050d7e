//! Racing an array of fallible children for the first success, counting the
//! children that failed.

use vstd::prelude::*;

use crate::future::common::array::array_from_vec;
use crate::future::common::{lemma_count_true_all_iff, lemma_count_true_zero_all};
use crate::utils::{count_true, lemma_count_true_bound, lemma_count_true_update};

pub mod error;

pub use error::AggregateError;

verus! {

/// A future which waits for the first successful future to complete: its
/// bookkeeping. A poll goes through every child in order; the first success
/// is returned at once, an error is kept under its child's index, and once
/// every child has failed the errors are returned, in child order.
pub struct RaceOk<T, E, const N: usize> {
    errors: Vec<Option<E>>,
    completed: usize,
    result: core::marker::PhantomData<T>,
}

impl<T, E, const N: usize> RaceOk<T, E, N> {
    /// The errors kept, by child.
    pub closed spec fn errors(&self) -> Seq<Option<E>> {
        self.errors@
    }

    /// How many children have failed.
    pub closed spec fn completed(&self) -> nat {
        self.completed as nat
    }

    pub closed spec fn wf(&self) -> bool {
        &&& self.errors@.len() == N
        &&& self.completed == count_true(failed(self.errors@))
        &&& self.completed <= N
    }

    pub fn new() -> (r: Self)
        ensures
            r.wf(),
            r.errors() == Seq::new(N as nat, |i: int| Option::<E>::None),
            r.completed() == 0,
    {
        let mut errors: Vec<Option<E>> = Vec::with_capacity(N);
        let mut i: usize = 0;
        while i < N
            invariant
                i <= N,
                errors@ == Seq::new(i as nat, |j: int| Option::<E>::None),
            decreases N - i,
        {
            errors.push(None);
            i = i + 1;
        }
        let r = RaceOk { errors, completed: 0, result: core::marker::PhantomData };
        proof {
            lemma_count_true_zero_all(N as nat);
            assert(failed(r.errors@) =~= Seq::new(N as nat, |i: int| false));
        }
        r
    }

    /// Whether child `idx` has already failed.
    pub fn has_failed(&self, idx: usize) -> (b: bool)
        requires
            self.wf(),
            idx < N,
        ensures
            b == self.errors()[idx as int] is Some,
    {
        self.errors[idx].is_some()
    }

    /// Child `idx`, which had not failed before, completed with `output`: a
    /// success is returned at once, an error is kept.
    pub fn on_ready(&mut self, idx: usize, output: Result<T, E>) -> (r: Option<T>)
        requires
            old(self).wf(),
            idx < N,
            old(self).errors()[idx as int] is None,
        ensures
            final(self).wf(),
            match output {
                Ok(ok) => r == Some(ok) && final(self).errors() == old(self).errors()
                    && final(self).completed() == old(self).completed(),
                Err(err) => r is None && final(self).errors() == old(self).errors().update(idx as int, Some(err))
                    && final(self).completed() == old(self).completed() + 1,
            },
    {
        match output {
            Ok(ok) => Some(ok),
            Err(err) => {
                let ghost before = self.errors@;
                proof {
                    lemma_count_true_update(failed(before), idx as int, true);
                    lemma_count_true_bound(failed(before).update(idx as int, true));
                }
                self.errors.set(idx, Some(err));
                self.completed = self.completed + 1;
                proof {
                    assert(failed(self.errors@) =~= failed(before).update(idx as int, true));
                }
                None
            },
        }
    }

    /// End a poll: once every child has failed, their errors, in child order.
    pub fn poll_end(&mut self) -> (r: Option<AggregateError<E, N>>)
        requires
            old(self).wf(),
        ensures
            old(self).completed() == N ==> r is Some && r->0.errors() == Seq::new(N as nat, |i: int| old(self).errors()[i]->Some_0)
                && final(self).errors() == Seq::new(N as nat, |i: int| Option::<E>::None),
            old(self).completed() != N ==> r is None && final(self).errors() == old(self).errors(),
            old(self).completed() != N ==> final(self).wf(),
            final(self).completed() == old(self).completed(),
    {
        if self.completed != N {
            return None;
        }
        let ghost before = self.errors@;
        proof {
            lemma_count_true_all_iff(failed(before));
            assert forall|j: int| 0 <= j < N implies #[trigger] before[j] is Some by {
                assert(failed(before)[j]);
            }
        }
        let mut out: Vec<E> = Vec::with_capacity(N);
        let mut i: usize = 0;
        while i < N
            invariant
                i <= N,
                self.completed == N,
                self.errors@.len() == N,
                before.len() == N,
                forall|j: int| 0 <= j < N ==> #[trigger] before[j] is Some,
                forall|j: int| 0 <= j < i ==> #[trigger] self.errors@[j] is None,
                forall|j: int| i <= j < N ==> #[trigger] self.errors@[j] == before[j],
                out@ == Seq::new(i as nat, |j: int| before[j]->Some_0),
            decreases N - i,
        {
            let mut taken: Option<E> = None;
            std::mem::swap(&mut taken, &mut self.errors[i]);
            match taken {
                Some(e) => {
                    out.push(e);
                },
                None => {
                    proof {
                        assert(false);
                    }
                },
            }
            proof {
                assert(out@ =~= Seq::new((i + 1) as nat, |j: int| before[j]->Some_0));
            }
            i = i + 1;
        }
        proof {
            assert(self.errors@ =~= Seq::new(N as nat, |i: int| Option::<E>::None));
        }
        match array_from_vec(out) {
            Ok(arr) => Some(AggregateError::new(arr)),
            Err(_) => None,
        }
    }
}

/// Which children have failed.
pub open spec fn failed<E>(errors: Seq<Option<E>>) -> Seq<bool> {
    Seq::new(errors.len(), |i: int| errors[i] is Some)
}

} // verus!
