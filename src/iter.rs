//! Double-ended iterators over array handles.
use vstd::prelude::*;

use crate::arr::RegArray;
use crate::handle::Handle;

verus! {

/// A cursor over the elements `front..back` of an array handle.
///
/// It can be advanced from both ends, always knows how many elements remain, and once empty
/// stays empty. Copying it gives an independent cursor.
#[derive(Clone, Copy)]
pub struct RegArrayIter<'a> {
    array: RegArray<'a>,
    front: usize,
    back: usize,
}

impl<'a> RegArrayIter<'a> {
    pub closed spec fn array(self) -> RegArray<'a> {
        self.array
    }

    /// Index of the next element from the front.
    pub closed spec fn front(self) -> nat {
        self.front as nat
    }

    /// One past the index of the next element from the back.
    pub closed spec fn back(self) -> nat {
        self.back as nat
    }

    pub open spec fn wf(self) -> bool {
        self.array().wf() && self.front() <= self.back() <= self.array().spec_len()
    }

    /// The number of elements left.
    pub open spec fn remaining(self) -> nat {
        (self.back() - self.front()) as nat
    }

    /// The cursor with `front` and `back` replaced.
    pub closed spec fn with_bounds(self, front: nat, back: nat) -> Self {
        RegArrayIter { array: self.array, front: front as usize, back: back as usize }
    }

    /// One step from the front: the cursor after it, and the index of the element it yields.
    pub open spec fn spec_next(self) -> (Self, Option<nat>) {
        if self.front() < self.back() {
            (self.with_bounds(self.front() + 1, self.back()), Some(self.front()))
        } else {
            (self, None)
        }
    }

    /// One step from the back: the cursor after it, and the index of the element it yields.
    pub open spec fn spec_next_back(self) -> (Self, Option<nat>) {
        if self.front() < self.back() {
            (self.with_bounds(self.front(), (self.back() - 1) as nat), Some((self.back() - 1) as nat))
        } else {
            (self, None)
        }
    }

    pub proof fn lemma_with_bounds(self, front: nat, back: nat)
        requires
            front <= back <= usize::MAX,
        ensures
            self.with_bounds(front, back).array() == self.array(),
            self.with_bounds(front, back).front() == front,
            self.with_bounds(front, back).back() == back,
    {
    }

    pub(crate) fn new(array: RegArray<'a>, front: usize, back: usize) -> (r: Self)
        ensures
            r.array() == array,
            r.front() == front,
            r.back() == back,
    {
        RegArrayIter { array, front, back }
    }

    /// The number of elements left.
    pub fn len(&self) -> (r: usize)
        requires
            self.wf(),
        ensures
            r == self.remaining(),
    {
        self.back - self.front
    }

    /// The number of elements left, as a lower and an exact upper bound.
    pub fn size_hint(&self) -> (r: (usize, Option<usize>))
        requires
            self.wf(),
        ensures
            r == (self.remaining() as usize, Some(self.remaining() as usize)),
    {
        let n = self.back - self.front;
        (n, Some(n))
    }

    /// The number of elements left.
    pub fn count(self) -> (r: usize)
        requires
            self.wf(),
        ensures
            r == self.remaining(),
    {
        self.back - self.front
    }

    /// Takes the element at the front, if any is left.
    pub fn next(&mut self) -> (r: Option<Handle<'a>>)
        requires
            old(self).wf(),
        ensures
            final(self).wf(),
            *final(self) == old(self).spec_next().0,
            r is Some <==> old(self).spec_next().1 is Some,
            r is Some ==> {
                let i = old(self).spec_next().1->0;
                let a = old(self).array();
                &&& r->0.is_at(a.maps(), a.elem(), a.elem_addr(i as int))
                &&& r->0.wf()
                &&& r->0.addr() == a.elem_addr(i as int)
                &&& r->0.size() == a.stride()
                &&& a.contains(r->0)
            },
    {
        if self.front < self.back {
            let h = self.array.idx_unchecked(self.front);
            self.front = self.front + 1;
            Some(h)
        } else {
            None
        }
    }

    /// Takes the element at the back, if any is left.
    pub fn next_back(&mut self) -> (r: Option<Handle<'a>>)
        requires
            old(self).wf(),
        ensures
            final(self).wf(),
            *final(self) == old(self).spec_next_back().0,
            r is Some <==> old(self).spec_next_back().1 is Some,
            r is Some ==> {
                let i = old(self).spec_next_back().1->0;
                let a = old(self).array();
                &&& r->0.is_at(a.maps(), a.elem(), a.elem_addr(i as int))
                &&& r->0.wf()
                &&& r->0.addr() == a.elem_addr(i as int)
                &&& r->0.size() == a.stride()
                &&& a.contains(r->0)
            },
    {
        if self.front < self.back {
            self.back = self.back - 1;
            Some(self.array.idx_unchecked(self.back))
        } else {
            None
        }
    }

    /// Skips `n` elements at the front and takes the next one. When fewer than `n + 1` are left,
    /// the cursor becomes empty and nothing is returned.
    pub fn nth(&mut self, n: usize) -> (r: Option<Handle<'a>>)
        requires
            old(self).wf(),
        ensures
            final(self).wf(),
            final(self).array() == old(self).array(),
            final(self).back() == old(self).back(),
            r is Some <==> n < old(self).remaining(),
            n < old(self).remaining() ==> final(self).front() == old(self).front() + n + 1,
            n >= old(self).remaining() ==> final(self).front() == old(self).back(),
            r is Some ==> {
                let i = old(self).front() + n;
                let a = old(self).array();
                &&& r->0.is_at(a.maps(), a.elem(), a.elem_addr(i as int))
                &&& r->0.wf()
                &&& r->0.addr() == a.elem_addr(i as int)
                &&& r->0.size() == a.stride()
                &&& a.contains(r->0)
            },
    {
        if n >= self.back - self.front {
            self.front = self.back;
            None
        } else {
            let i = self.front + n;
            let h = self.array.idx_unchecked(i);
            self.front = i + 1;
            Some(h)
        }
    }

    /// Skips `n` elements at the back and takes the one before them. When fewer than `n + 1`
    /// are left, the cursor becomes empty and nothing is returned.
    pub fn nth_back(&mut self, n: usize) -> (r: Option<Handle<'a>>)
        requires
            old(self).wf(),
        ensures
            final(self).wf(),
            final(self).array() == old(self).array(),
            final(self).front() == old(self).front(),
            r is Some <==> n < old(self).remaining(),
            n < old(self).remaining() ==> final(self).back() == old(self).back() - n - 1,
            n >= old(self).remaining() ==> final(self).back() == old(self).front(),
            r is Some ==> {
                let i = old(self).back() - n - 1;
                let a = old(self).array();
                &&& r->0.is_at(a.maps(), a.elem(), a.elem_addr(i as int))
                &&& r->0.wf()
                &&& r->0.addr() == a.elem_addr(i as int)
                &&& r->0.size() == a.stride()
                &&& a.contains(r->0)
            },
    {
        if n >= self.back - self.front {
            self.back = self.front;
            None
        } else {
            let i = self.back - n - 1;
            self.back = i;
            Some(self.array.idx_unchecked(i))
        }
    }

    /// The last element left, if any.
    pub fn last(self) -> (r: Option<Handle<'a>>)
        requires
            self.wf(),
        ensures
            r is Some <==> self.front() < self.back(),
            r is Some ==> {
                let a = self.array();
                r->0.is_at(a.maps(), a.elem(), a.elem_addr(self.back() - 1))
            },
    {
        let mut it = self;
        it.next_back()
    }
}

/// The indices yielded by `k` successive steps from the front (`None` for a step that yields
/// nothing).
pub open spec fn drain_front(it: RegArrayIter, k: nat) -> Seq<Option<nat>>
    decreases k,
{
    if k == 0 {
        Seq::empty()
    } else {
        seq![it.spec_next().1] + drain_front(it.spec_next().0, (k - 1) as nat)
    }
}

/// The indices yielded by `k` successive steps from the back.
pub open spec fn drain_back(it: RegArrayIter, k: nat) -> Seq<Option<nat>>
    decreases k,
{
    if k == 0 {
        Seq::empty()
    } else {
        seq![it.spec_next_back().1] + drain_back(it.spec_next_back().0, (k - 1) as nat)
    }
}

/// Stepping a cursor from the front yields each remaining index once, in increasing order, and
/// after the last one yields nothing, however often it is stepped again.
pub proof fn lemma_forward_order(it: RegArrayIter, k: nat)
    requires
        it.wf(),
    ensures
        drain_front(it, k) == Seq::new(
            k,
            |j: int| if j < it.remaining() { Some((it.front() + j) as nat) } else { None::<nat> },
        ),
    decreases k,
{
    if k > 0 {
        let next = it.spec_next().0;
        if it.front() < it.back() {
            it.lemma_with_bounds(it.front() + 1, it.back());
        }
        lemma_forward_order(next, (k - 1) as nat);
        assert(drain_front(it, k) =~= Seq::new(
            k,
            |j: int| if j < it.remaining() { Some((it.front() + j) as nat) } else { None::<nat> },
        ));
    }
}

/// Stepping a cursor from the back yields each remaining index once, in decreasing order, and
/// after the first one yields nothing, however often it is stepped again.
pub proof fn lemma_backward_order(it: RegArrayIter, k: nat)
    requires
        it.wf(),
    ensures
        drain_back(it, k) == Seq::new(
            k,
            |j: int| if j < it.remaining() { Some((it.back() - 1 - j) as nat) } else { None::<nat> },
        ),
    decreases k,
{
    if k > 0 {
        let next = it.spec_next_back().0;
        if it.front() < it.back() {
            it.lemma_with_bounds(it.front(), (it.back() - 1) as nat);
        }
        lemma_backward_order(next, (k - 1) as nat);
        assert(drain_back(it, k) =~= Seq::new(
            k,
            |j: int| if j < it.remaining() { Some((it.back() - 1 - j) as nat) } else { None::<nat> },
        ));
    }
}

} // verus!
