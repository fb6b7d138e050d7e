//! Children polled until each is done, their outputs kept until taken.

use vstd::prelude::*;

verus! {

/// The state of a child polled until it is done.
#[derive(Debug)]
pub enum MaybeDone<O> {
    /// Still running: to be polled.
    Running,
    /// Done, with its output kept.
    Done(O),
    /// Done, its output taken.
    Gone,
}

/// Whether every child is done with its output kept.
pub open spec fn all_done<O>(slots: Seq<MaybeDone<O>>) -> bool {
    forall|i: int| 0 <= i < slots.len() ==> #[trigger] slots[i] is Done
}

/// The kept outputs of children that are all done.
pub open spec fn done_outputs<O>(slots: Seq<MaybeDone<O>>) -> Seq<O> {
    Seq::new(slots.len(), |i: int| slots[i]->Done_0)
}

/// A number of children, each polled until it is done.
pub struct DoneSlots<O> {
    slots: Vec<MaybeDone<O>>,
}

impl<O> View for DoneSlots<O> {
    type V = Seq<MaybeDone<O>>;

    closed spec fn view(&self) -> Seq<MaybeDone<O>> {
        self.slots@
    }
}

impl<O> DoneSlots<O> {
    /// `len` children, all running.
    pub fn new(len: usize) -> (s: Self)
        ensures
            s@ == Seq::new(len as nat, |i: int| MaybeDone::<O>::Running),
    {
        let mut slots: Vec<MaybeDone<O>> = Vec::with_capacity(len);
        let mut i: usize = 0;
        while i < len
            invariant
                i <= len,
                slots@ == Seq::new(i as nat, |j: int| MaybeDone::<O>::Running),
            decreases len - i,
        {
            slots.push(MaybeDone::Running);
            i = i + 1;
        }
        DoneSlots { slots }
    }

    pub fn len(&self) -> (n: usize)
        ensures
            n == self@.len(),
    {
        self.slots.len()
    }

    /// Whether child `i` is still running, and so is to be polled.
    pub fn is_running(&self, i: usize) -> (b: bool)
        requires
            i < self@.len(),
        ensures
            b == self@[i as int] is Running,
    {
        matches!(self.slots[i], MaybeDone::Running)
    }

    /// Whether the output of child `i` has been taken.
    pub fn is_gone(&self, i: usize) -> (b: bool)
        requires
            i < self@.len(),
        ensures
            b == self@[i as int] is Gone,
    {
        matches!(self.slots[i], MaybeDone::Gone)
    }

    /// Child `i`, which was running, is done with `out`.
    pub fn complete(&mut self, i: usize, out: O)
        requires
            i < old(self)@.len(),
            old(self)@[i as int] is Running,
        ensures
            final(self)@ == old(self)@.update(i as int, MaybeDone::Done(out)),
    {
        self.slots.set(i, MaybeDone::Done(out));
    }

    /// Take the output of child `i`, if it is kept.
    pub fn take(&mut self, i: usize) -> (r: Option<O>)
        requires
            i < old(self)@.len(),
        ensures
            old(self)@[i as int] matches MaybeDone::Done(o) ==> r == Some(o)
                && final(self)@ == old(self)@.update(i as int, MaybeDone::Gone),
            !(old(self)@[i as int] is Done) ==> r is None && final(self)@ == old(self)@,
    {
        if matches!(self.slots[i], MaybeDone::Done(_)) {
            let mut taken: MaybeDone<O> = MaybeDone::Gone;
            std::mem::swap(&mut taken, &mut self.slots[i]);
            match taken {
                MaybeDone::Done(o) => Some(o),
                _ => None,
            }
        } else {
            None
        }
    }

    /// Whether every child is done with its output kept.
    pub fn all_done(&self) -> (b: bool)
        ensures
            b == all_done(self@),
    {
        let mut i: usize = 0;
        while i < self.slots.len()
            invariant
                i <= self.slots@.len(),
                forall|j: int| 0 <= j < i ==> #[trigger] self.slots@[j] is Done,
            decreases self.slots@.len() - i,
        {
            if !matches!(self.slots[i], MaybeDone::Done(_)) {
                return false;
            }
            i = i + 1;
        }
        true
    }

    /// Take every output, in child order, once all are done.
    pub fn take_all(&mut self) -> (v: Vec<O>)
        requires
            all_done(old(self)@),
        ensures
            v@ == done_outputs(old(self)@),
            final(self)@ == Seq::new(old(self)@.len(), |i: int| MaybeDone::<O>::Gone),
    {
        let n = self.slots.len();
        let mut out: Vec<O> = Vec::with_capacity(n);
        let mut i: usize = 0;
        while i < n
            invariant
                i <= n,
                n == old(self)@.len(),
                self.slots@.len() == n,
                forall|j: int| 0 <= j < i ==> #[trigger] self.slots@[j] is Gone,
                forall|j: int| i <= j < n ==> #[trigger] self.slots@[j] == old(self)@[j],
                all_done(old(self)@),
                out@ == done_outputs(old(self)@).take(i as int),
            decreases n - i,
        {
            let mut taken: MaybeDone<O> = MaybeDone::Gone;
            std::mem::swap(&mut taken, &mut self.slots[i]);
            match taken {
                MaybeDone::Done(o) => {
                    out.push(o);
                },
                _ => {
                    proof {
                        assert(old(self)@[i as int] is Done);
                    }
                },
            }
            proof {
                assert(out@ =~= done_outputs(old(self)@).take(i + 1));
            }
            i = i + 1;
        }
        proof {
            assert(out@ =~= done_outputs(old(self)@));
            assert(self.slots@ =~= Seq::new(n as nat, |i: int| MaybeDone::<O>::Gone));
        }
        out
    }
}

impl<T, E> DoneSlots<Result<T, E>> {
    /// Take the output of child `i` if it is a kept error.
    pub fn take_err(&mut self, i: usize) -> (r: Option<E>)
        requires
            i < old(self)@.len(),
        ensures
            old(self)@[i as int] matches MaybeDone::Done(Err(e)) ==> r == Some(e)
                && final(self)@ == old(self)@.update(i as int, MaybeDone::Gone),
            !(old(self)@[i as int] matches MaybeDone::Done(Err(_))) ==> r is None && final(self)@ == old(self)@,
    {
        if matches!(self.slots[i], MaybeDone::Done(Err(_))) {
            match self.take(i) {
                Some(Err(e)) => Some(e),
                _ => None,
            }
        } else {
            None
        }
    }

    /// Take the output of child `i` if it is a kept success.
    pub fn take_ok(&mut self, i: usize) -> (r: Option<T>)
        requires
            i < old(self)@.len(),
        ensures
            old(self)@[i as int] matches MaybeDone::Done(Ok(t)) ==> r == Some(t)
                && final(self)@ == old(self)@.update(i as int, MaybeDone::Gone),
            !(old(self)@[i as int] matches MaybeDone::Done(Ok(_))) ==> r is None && final(self)@ == old(self)@,
    {
        if matches!(self.slots[i], MaybeDone::Done(Ok(_))) {
            match self.take(i) {
                Some(Ok(t)) => Some(t),
                _ => None,
            }
        } else {
            None
        }
    }

    /// Take every success, in child order, once all are done with one.
    pub fn take_all_oks(&mut self) -> (v: Vec<T>)
        requires
            forall|i: int| 0 <= i < old(self)@.len() ==> #[trigger] old(self)@[i] matches MaybeDone::Done(Ok(_)),
        ensures
            v@ == ok_values(done_outputs(old(self)@)),
            final(self)@ == Seq::new(old(self)@.len(), |i: int| MaybeDone::<Result<T, E>>::Gone),
    {
        let n = self.slots.len();
        let mut out: Vec<T> = Vec::with_capacity(n);
        let mut i: usize = 0;
        while i < n
            invariant
                i <= n,
                n == old(self)@.len(),
                self.slots@.len() == n,
                forall|j: int| 0 <= j < i ==> #[trigger] self.slots@[j] is Gone,
                forall|j: int| i <= j < n ==> #[trigger] self.slots@[j] == old(self)@[j],
                forall|j: int| 0 <= j < n ==> #[trigger] old(self)@[j] matches MaybeDone::Done(Ok(_)),
                out@ == ok_values(done_outputs(old(self)@)).take(i as int),
            decreases n - i,
        {
            let mut taken: MaybeDone<Result<T, E>> = MaybeDone::Gone;
            std::mem::swap(&mut taken, &mut self.slots[i]);
            match taken {
                MaybeDone::Done(Ok(t)) => {
                    out.push(t);
                },
                _ => {
                    proof {
                        assert(old(self)@[i as int] matches MaybeDone::Done(Ok(_)));
                    }
                },
            }
            proof {
                assert(out@ =~= ok_values(done_outputs(old(self)@)).take(i + 1));
            }
            i = i + 1;
        }
        proof {
            assert(out@ =~= ok_values(done_outputs(old(self)@)));
            assert(self.slots@ =~= Seq::new(n as nat, |i: int| MaybeDone::<Result<T, E>>::Gone));
        }
        out
    }

    /// Take every error, in child order, once all are done with one.
    pub fn take_all_errs(&mut self) -> (v: Vec<E>)
        requires
            forall|i: int| 0 <= i < old(self)@.len() ==> #[trigger] old(self)@[i] matches MaybeDone::Done(Err(_)),
        ensures
            v@ == err_values(done_outputs(old(self)@)),
            final(self)@ == Seq::new(old(self)@.len(), |i: int| MaybeDone::<Result<T, E>>::Gone),
    {
        let n = self.slots.len();
        let mut out: Vec<E> = Vec::with_capacity(n);
        let mut i: usize = 0;
        while i < n
            invariant
                i <= n,
                n == old(self)@.len(),
                self.slots@.len() == n,
                forall|j: int| 0 <= j < i ==> #[trigger] self.slots@[j] is Gone,
                forall|j: int| i <= j < n ==> #[trigger] self.slots@[j] == old(self)@[j],
                forall|j: int| 0 <= j < n ==> #[trigger] old(self)@[j] matches MaybeDone::Done(Err(_)),
                out@ == err_values(done_outputs(old(self)@)).take(i as int),
            decreases n - i,
        {
            let mut taken: MaybeDone<Result<T, E>> = MaybeDone::Gone;
            std::mem::swap(&mut taken, &mut self.slots[i]);
            match taken {
                MaybeDone::Done(Err(e)) => {
                    out.push(e);
                },
                _ => {
                    proof {
                        assert(old(self)@[i as int] matches MaybeDone::Done(Err(_)));
                    }
                },
            }
            proof {
                assert(out@ =~= err_values(done_outputs(old(self)@)).take(i + 1));
            }
            i = i + 1;
        }
        proof {
            assert(out@ =~= err_values(done_outputs(old(self)@)));
            assert(self.slots@ =~= Seq::new(n as nat, |i: int| MaybeDone::<Result<T, E>>::Gone));
        }
        out
    }
}

/// The successes of results that are all successes.
pub open spec fn ok_values<T, E>(s: Seq<Result<T, E>>) -> Seq<T> {
    Seq::new(s.len(), |i: int| s[i]->Ok_0)
}

/// The errors of results that are all errors.
pub open spec fn err_values<T, E>(s: Seq<Result<T, E>>) -> Seq<E> {
    Seq::new(s.len(), |i: int| s[i]->Err_0)
}

} // verus!
