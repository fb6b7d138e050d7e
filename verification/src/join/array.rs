//! Joining an array of children that are polled only when woken: the children
//! to poll next form a list threaded through the children themselves.

use vstd::prelude::*;

use crate::future::common::array::array_from_vec;
use crate::future::common::done::{all_done, done_outputs, DoneSlots, MaybeDone};
use crate::utils::{count_true, lemma_count_true_bound, lemma_count_true_update};
use crate::future::common::{lemma_count_true_all_iff, lemma_count_true_zero_all};

verus! {

/// The children to poll next, as a list threaded through the children: a
/// woken child is pushed at the front unless it is already in the list, and a
/// poll takes children from the front.
pub struct WakeList {
    head: Option<usize>,
    next: Vec<Option<usize>>,
    linked: Vec<bool>,
    list: Ghost<Seq<usize>>,
    pos: Ghost<Seq<int>>,
}

impl WakeList {
    /// The children in the list, from the front.
    pub closed spec fn list(&self) -> Seq<usize> {
        self.list@
    }

    /// The number of children.
    pub closed spec fn len(&self) -> nat {
        self.next@.len()
    }

    pub closed spec fn wf(&self) -> bool {
        let l = self.list@;
        let p = self.pos@;
        let n = self.next@.len();
        &&& self.linked@.len() == n
        &&& p.len() == n
        &&& forall|k: int| 0 <= k < l.len() ==> #[trigger] l[k] < n && p[l[k] as int] == k
        &&& forall|i: int| 0 <= i < n ==> (#[trigger] self.linked@[i] <==> p[i] >= 0)
        &&& forall|i: int| 0 <= i < n && #[trigger] p[i] >= 0 ==> p[i] < l.len() && l[p[i]] == i
        &&& (l.len() == 0 <==> self.head is None)
        &&& (l.len() > 0 ==> self.head == Some(l[0]))
        &&& forall|k: int|
            0 <= k < l.len() ==> self.next@[#[trigger] l[k] as int] == (if k + 1 < l.len() {
                Some(l[k + 1])
            } else {
                None
            })
    }

    /// No child is in the list twice, and every child in it is one of the
    /// children.
    pub proof fn lemma_no_duplicates(&self)
        requires
            self.wf(),
        ensures
            self.list().no_duplicates(),
            forall|k: int| 0 <= k < self.list().len() ==> #[trigger] self.list()[k] < self.len(),
    {
        let l = self.list@;
        assert forall|a: int, b: int| 0 <= a < l.len() && 0 <= b < l.len() && a != b implies l[a] != l[b] by {
            assert(self.pos@[l[a] as int] == a);
            assert(self.pos@[l[b] as int] == b);
        }
    }

    /// A child is in the list exactly when it is marked linked.
    proof fn lemma_contains(&self, i: usize)
        requires
            self.wf(),
            i < self.len(),
        ensures
            self.list().contains(i) <==> self.linked@[i as int],
    {
        let l = self.list@;
        if self.linked@[i as int] {
            assert(l[self.pos@[i as int]] == i);
        }
        if l.contains(i) {
            let k = choose|k: int| 0 <= k < l.len() && l[k] == i;
            assert(self.pos@[l[k] as int] == k);
        }
    }

    /// The list `0, 1, .., len - 1`.
    pub fn new(len: usize) -> (w: Self)
        ensures
            w.wf(),
            w.len() == len,
            w.list() == Seq::new(len as nat, |i: int| i as usize),
    {
        let mut next: Vec<Option<usize>> = Vec::with_capacity(len);
        let mut linked: Vec<bool> = Vec::with_capacity(len);
        let mut i: usize = 0;
        while i < len
            invariant
                i <= len,
                next@.len() == i,
                linked@.len() == i,
                forall|j: int| 0 <= j < i ==> #[trigger] next@[j] == (if j + 1 < len { Some((j + 1) as usize) } else { None::<usize> }),
                forall|j: int| 0 <= j < i ==> #[trigger] linked@[j],
            decreases len - i,
        {
            if i + 1 < len {
                next.push(Some(i + 1));
            } else {
                next.push(None);
            }
            linked.push(true);
            i = i + 1;
        }
        let ghost l = Seq::new(len as nat, |i: int| i as usize);
        let ghost p = Seq::new(len as nat, |i: int| i);
        let head = if len > 0 {
            Some(0)
        } else {
            None
        };
        WakeList { head, next, linked, list: Ghost(l), pos: Ghost(p) }
    }

    /// Child `i` is woken: it is pushed at the front of the list unless it is
    /// in the list already. Returns whether the list was empty, in which case
    /// the parent is to be woken.
    pub fn wake(&mut self, i: usize) -> (was_empty: bool)
        requires
            old(self).wf(),
            i < old(self).len(),
        ensures
            final(self).wf(),
            final(self).len() == old(self).len(),
            was_empty == (old(self).list().len() == 0),
            final(self).list() == if old(self).list().contains(i) {
                old(self).list()
            } else {
                seq![i].add(old(self).list())
            },
    {
        proof {
            self.lemma_contains(i);
        }
        let was_empty = self.head.is_none();
        if self.linked[i] {
            return was_empty;
        }
        let ghost l = self.list@;
        let ghost p = self.pos@;
        let ghost n = self.next@.len();
        let head = self.head;
        self.next.set(i, head);
        self.linked.set(i, true);
        self.head = Some(i);
        let ghost nl = seq![i].add(l);
        let ghost np = Seq::new(n, |j: int| if j == i { 0 } else if p[j] >= 0 { p[j] + 1 } else { -1 });
        self.list = Ghost(nl);
        self.pos = Ghost(np);
        proof {
            assert forall|k: int| 0 <= k < nl.len() implies #[trigger] nl[k] < n && np[nl[k] as int] == k by {
                if k > 0 {
                    assert(nl[k] == l[k - 1]);
                    assert(p[l[k - 1] as int] == k - 1);
                }
            }
            assert forall|j: int| 0 <= j < n && #[trigger] np[j] >= 0 implies np[j] < nl.len() && nl[np[j]] == j by {
                if j != i {
                    assert(l[p[j]] == j);
                    assert(nl[p[j] + 1] == l[p[j]]);
                }
            }
            assert forall|k: int| 0 <= k < nl.len() implies self.next@[#[trigger] nl[k] as int] == (if k + 1 < nl.len() {
                Some(nl[k + 1])
            } else {
                None
            }) by {
                if k > 0 {
                    assert(nl[k] == l[k - 1]);
                    assert(p[l[k - 1] as int] == k - 1);
                }
            }
        }
        was_empty
    }

    /// Takes the child at the front of the list, if any.
    pub fn pop(&mut self) -> (r: Option<usize>)
        requires
            old(self).wf(),
        ensures
            final(self).wf(),
            final(self).len() == old(self).len(),
            old(self).list().len() == 0 ==> r is None && final(self).list() == old(self).list(),
            old(self).list().len() > 0 ==> r == Some(old(self).list()[0]) && final(self).list() == old(self).list().drop_first(),
    {
        match self.head {
            None => None,
            Some(i) => {
                let ghost l = self.list@;
                let ghost p = self.pos@;
                let ghost n = self.next@.len();
                proof {
                    assert(l[0] == i);
                    assert(p[i as int] == 0);
                }
                let after = self.next[i];
                self.head = after;
                self.next.set(i, None);
                self.linked.set(i, false);
                let ghost nl = l.drop_first();
                let ghost np = Seq::new(n, |j: int| if j == i { -1 } else if p[j] >= 0 { p[j] - 1 } else { -1 });
                self.list = Ghost(nl);
                self.pos = Ghost(np);
                proof {
                    assert forall|k: int| 0 <= k < nl.len() implies #[trigger] nl[k] < n && np[nl[k] as int] == k by {
                        assert(nl[k] == l[k + 1]);
                        assert(p[l[k + 1] as int] == k + 1);
                    }
                    assert forall|j: int| 0 <= j < n && #[trigger] np[j] >= 0 implies np[j] < nl.len() && nl[np[j]] == j by {
                        assert(j != i);
                        assert(l[p[j]] == j);
                        assert(p[j] != 0);
                        assert(nl[p[j] - 1] == l[p[j]]);
                    }
                    assert forall|k: int| 0 <= k < nl.len() implies self.next@[#[trigger] nl[k] as int] == (if k + 1 < nl.len() {
                        Some(nl[k + 1])
                    } else {
                        None
                    }) by {
                        assert(nl[k] == l[k + 1]);
                        assert(p[l[k + 1] as int] == k + 1);
                    }
                }
                Some(i)
            },
        }
    }
}

/// Which children are done, their output kept.
pub open spec fn done_flags<O>(elems: Seq<MaybeDone<O>>) -> Seq<bool> {
    Seq::new(elems.len(), |i: int| elems[i] is Done)
}

/// Waits for an array of children to complete, polling a child only after it
/// has been woken: the bookkeeping. Every child starts out woken; once every
/// child is done their outputs, in child order, are the output.
pub struct Join<O, const N: usize> {
    elems: DoneSlots<O>,
    wake_list: WakeList,
    done_count: usize,
}

impl<O, const N: usize> Join<O, N> {
    /// The state of every child.
    pub closed spec fn elems(&self) -> Seq<MaybeDone<O>> {
        self.elems@
    }

    /// The children to poll next, from the front.
    pub closed spec fn to_poll(&self) -> Seq<usize> {
        self.wake_list.list()
    }

    /// How many children are done.
    pub closed spec fn done_count(&self) -> nat {
        self.done_count as nat
    }

    pub closed spec fn wf(&self) -> bool {
        &&& self.elems@.len() == N
        &&& self.wake_list.wf()
        &&& self.wake_list.len() == N
        &&& self.done_count == count_true(done_flags(self.elems@))
    }

    pub fn new() -> (j: Self)
        ensures
            j.wf(),
            j.elems() == Seq::new(N as nat, |i: int| MaybeDone::<O>::Running),
            j.to_poll() == Seq::new(N as nat, |i: int| i as usize),
            j.done_count() == 0,
    {
        let j = Join { elems: DoneSlots::new(N), wake_list: WakeList::new(N), done_count: 0 };
        proof {
            lemma_count_true_zero_all(N as nat);
            assert(done_flags(j.elems@) =~= Seq::new(N as nat, |i: int| false));
        }
        j
    }

    /// Child `i` has been woken; returns whether the parent is to be woken.
    pub fn wake(&mut self, i: usize) -> (wake_parent: bool)
        requires
            old(self).wf(),
            i < N,
        ensures
            final(self).wf(),
            final(self).elems() == old(self).elems(),
            final(self).done_count() == old(self).done_count(),
            wake_parent == (old(self).to_poll().len() == 0),
            final(self).to_poll() == if old(self).to_poll().contains(i) {
                old(self).to_poll()
            } else {
                seq![i].add(old(self).to_poll())
            },
    {
        self.wake_list.wake(i)
    }

    /// The next child to poll: the front of the list, taken off it. A child
    /// that is no longer running is not to be polled.
    pub fn next_to_poll(&mut self) -> (r: Option<usize>)
        requires
            old(self).wf(),
        ensures
            final(self).wf(),
            final(self).elems() == old(self).elems(),
            final(self).done_count() == old(self).done_count(),
            old(self).to_poll().len() == 0 ==> r is None && final(self).to_poll() == old(self).to_poll(),
            old(self).to_poll().len() > 0 ==> r == Some(old(self).to_poll()[0]) && final(self).to_poll()
                == old(self).to_poll().drop_first(),
            r matches Some(i) ==> i < N,
    {
        self.wake_list.pop()
    }

    /// Whether child `i` is still running, and so is to be polled.
    pub fn is_running(&self, i: usize) -> (b: bool)
        requires
            self.wf(),
            i < N,
        ensures
            b == self.elems()[i as int] is Running,
    {
        self.elems.is_running(i)
    }

    /// Child `i`, which was running, completed with `output`.
    pub fn on_ready(&mut self, i: usize, output: O)
        requires
            old(self).wf(),
            i < N,
            old(self).elems()[i as int] is Running,
        ensures
            final(self).wf(),
            final(self).elems() == old(self).elems().update(i as int, MaybeDone::Done(output)),
            final(self).to_poll() == old(self).to_poll(),
            final(self).done_count() == old(self).done_count() + 1,
    {
        let ghost before = self.elems@;
        proof {
            lemma_count_true_update(done_flags(before), i as int, true);
            lemma_count_true_bound(done_flags(before).update(i as int, true));
        }
        self.elems.complete(i, output);
        proof {
            assert(done_flags(self.elems@) =~= done_flags(before).update(i as int, true));
        }
        self.done_count = self.done_count + 1;
    }

    /// End a poll: once every child is done, their outputs in child order.
    pub fn poll_end(&mut self) -> (r: Option<[O; N]>)
        requires
            old(self).wf(),
        ensures
            old(self).done_count() == N ==> r is Some && r->0@ == done_outputs(old(self).elems())
                && final(self).elems() == Seq::new(N as nat, |i: int| MaybeDone::<O>::Gone),
            old(self).done_count() != N ==> r is None && *final(self) == *old(self),
    {
        if self.done_count != N {
            return None;
        }
        proof {
            lemma_count_true_all_iff(done_flags(self.elems@));
            assert forall|i: int| 0 <= i < N implies #[trigger] self.elems@[i] is Done by {
                assert(done_flags(self.elems@)[i]);
            }
            assert(all_done(self.elems@));
        }
        let outs = self.elems.take_all();
        match array_from_vec(outs) {
            Ok(arr) => Some(arr),
            Err(_) => None,
        }
    }
}

/// However often children are woken, each is queued at most once, so a poll
/// that drains the queue polls each woken child once.
pub proof fn law_woken_child_queued_once<O, const N: usize>(j: Join<O, N>)
    requires
        j.wf(),
    ensures
        j.to_poll().no_duplicates(),
        forall|k: int| 0 <= k < j.to_poll().len() ==> #[trigger] j.to_poll()[k] < N,
{
    j.wake_list.lemma_no_duplicates();
}

} // verus!
