//! Handles to fixed-length arrays of registers, nested maps or further arrays.
use vstd::prelude::*;

use crate::access::Access;
use crate::handle::Handle;
use crate::integers::Integer;
use crate::iter::RegArrayIter;
use crate::layout::{kind_size, kind_wf, layout_wf, Kind, Layout, MapLayout};
use crate::reg::{lemma_write_other, lemma_write_read, Reg};
use crate::region::disjoint;

verus! {

/// An index or a range outside an array.
#[derive(Clone, Copy, Debug, PartialEq, Eq, Structural)]
pub struct BoundsError {}

/// A handle to an array: `len` elements of one kind, `stride` bytes apart from a base address.
#[derive(Clone, Copy)]
pub struct RegArray<'a> {
    layout: &'a Layout,
    elem: &'a Kind,
    base: usize,
    len: usize,
    stride: usize,
}

/// Element `i` of an array of elements `stride` bytes long ends no later than the array.
pub proof fn lemma_elem_in_array(stride: nat, len: nat, i: nat)
    requires
        i < len,
    ensures
        i * stride + stride <= stride * len,
{
    assert(i * stride + stride <= stride * len) by (nonlinear_arith)
        requires
            i < len,
    ;
}

impl<'a> RegArray<'a> {
    pub closed spec fn maps(self) -> Seq<MapLayout> {
        self.layout@
    }

    /// The kind of the elements.
    pub closed spec fn elem(self) -> Kind {
        *self.elem
    }

    pub closed spec fn base(self) -> nat {
        self.base as nat
    }

    pub closed spec fn spec_len(self) -> nat {
        self.len as nat
    }

    /// The distance between two elements: the size of one.
    pub closed spec fn stride(self) -> nat {
        self.stride as nat
    }

    /// The address of element `i`.
    pub open spec fn elem_addr(self, i: int) -> nat {
        (self.base() + i * self.stride()) as nat
    }

    /// The kind of the whole array.
    pub open spec fn kind(self) -> Kind {
        Kind::Array(Box::new(self.elem()), self.spec_len() as usize, self.stride() as usize)
    }

    /// Whether `h` lies inside the array's bytes.
    pub open spec fn contains(self, h: Handle) -> bool {
        self.base() <= h.addr() && h.addr() + h.size() <= self.base() + self.stride()
            * self.spec_len()
    }

    pub open spec fn wf(self) -> bool {
        &&& layout_wf(self.maps())
        &&& kind_wf(self.maps(), self.elem())
        &&& self.stride() == kind_size(self.maps(), self.elem())
        &&& self.base() + self.stride() * self.spec_len() <= usize::MAX
    }

    pub(crate) fn new(layout: &'a Layout, elem: &'a Kind, base: usize, len: usize, stride: usize) -> (r: RegArray<'a>)
        ensures
            r.maps() == layout@,
            r.elem() == *elem,
            r.base() == base,
            r.spec_len() == len,
            r.stride() == stride,
    {
        RegArray { layout, elem, base, len, stride }
    }

    /// The base address: that of element `0`.
    pub fn as_ptr(&self) -> (r: usize)
        ensures
            r == self.base(),
    {
        self.base
    }

    /// The number of elements.
    pub fn len(&self) -> (r: usize)
        ensures
            r == self.spec_len(),
    {
        self.len
    }

    /// The size of one element in bytes.
    pub fn elem_size(&self) -> (r: usize)
        ensures
            r == self.stride(),
    {
        self.stride
    }

    /// The handle of element `index`, at the base address plus `index` strides. Fails exactly
    /// when `index` is not below the length.
    pub fn idx(&self, index: usize) -> (r: Result<Handle<'a>, BoundsError>)
        requires
            self.wf(),
        ensures
            r is Ok <==> index < self.spec_len(),
            r is Ok ==> {
                &&& r->Ok_0.is_at(self.maps(), self.elem(), self.elem_addr(index as int))
                &&& r->Ok_0.wf()
                &&& r->Ok_0.addr() == self.elem_addr(index as int)
                &&& r->Ok_0.size() == self.stride()
                &&& self.contains(r->Ok_0)
            },
    {
        if index >= self.len {
            return Err(BoundsError {});
        }
        Ok(self.idx_unchecked(index))
    }

    /// The handle of element `index`, which must be below the length.
    pub fn idx_unchecked(&self, index: usize) -> (r: Handle<'a>)
        requires
            self.wf(),
            index < self.spec_len(),
        ensures
            r.is_at(self.maps(), self.elem(), self.elem_addr(index as int)),
            r.wf(),
            r.addr() == self.elem_addr(index as int),
            r.size() == self.stride(),
            self.contains(r),
    {
        proof {
            lemma_elem_in_array(self.stride as nat, self.len as nat, index as nat);
        }
        Handle::at(self.layout, self.elem, self.base + index * self.stride)
    }

    /// An iterator over all the elements.
    pub fn iter(&self) -> (r: RegArrayIter<'a>)
        requires
            self.wf(),
        ensures
            r.wf(),
            r.array() == *self,
            r.front() == 0,
            r.back() == self.spec_len(),
    {
        RegArrayIter::new(*self, 0, self.len)
    }

    /// An iterator over the elements `start` (included) to `end` (excluded). Fails exactly when
    /// `start > end` or `end` is past the length.
    pub fn iter_slice(&self, start: usize, end: usize) -> (r: Result<RegArrayIter<'a>, BoundsError>)
        requires
            self.wf(),
        ensures
            r is Ok <==> start <= end <= self.spec_len(),
            r is Ok ==> {
                &&& r->Ok_0.wf()
                &&& r->Ok_0.array() == *self
                &&& r->Ok_0.front() == start
                &&& r->Ok_0.back() == end
            },
    {
        if start > end || end > self.len {
            return Err(BoundsError {});
        }
        Ok(RegArrayIter::new(*self, start, end))
    }
}

/// The kind reached from `k` by indexing `d` times.
pub open spec fn sub_kind(k: Kind, d: nat) -> Kind
    decreases d,
{
    if d == 0 {
        k
    } else {
        match k {
            Kind::Array(e, _, _) => sub_kind(*e, (d - 1) as nat),
            _ => k,
        }
    }
}

/// Whether the coordinates `c` index into `k`: one index per array level, each below that
/// level's length.
pub open spec fn coords_valid(k: Kind, c: Seq<int>) -> bool
    decreases c.len(),
{
    if c.len() == 0 {
        true
    } else {
        match k {
            Kind::Array(e, n, _) => 0 <= c[0] < n && coords_valid(*e, c.drop_first()),
            _ => false,
        }
    }
}

/// The byte offset, from the start of `k`, of the element at coordinates `c`: each index
/// times its level's stride, summed.
pub open spec fn coord_offset(k: Kind, c: Seq<int>) -> int
    decreases c.len(),
{
    if c.len() == 0 {
        0
    } else {
        match k {
            Kind::Array(e, _, s) => c[0] * s + coord_offset(*e, c.drop_first()),
            _ => 0,
        }
    }
}

proof fn lemma_mul_step(a: int, b: int, s: int)
    requires
        0 <= a < b,
        s >= 0,
    ensures
        a * s + s <= b * s,
{
    assert(a * s + s <= b * s) by (nonlinear_arith)
        requires
            a < b,
            s >= 0,
    ;
}

/// The element at valid coordinates lies inside the indexed kind.
pub proof fn lemma_coords_in_range(maps: Seq<MapLayout>, k: Kind, c: Seq<int>)
    requires
        kind_wf(maps, k),
        coords_valid(k, c),
    ensures
        0 <= coord_offset(k, c),
        coord_offset(k, c) + kind_size(maps, sub_kind(k, c.len())) <= kind_size(maps, k),
    decreases c.len(),
{
    if c.len() > 0 {
        if let Kind::Array(e, n, s) = k {
            lemma_coords_in_range(maps, *e, c.drop_first());
            lemma_mul_step(c[0], n as int, s as int);
            assert(0 <= c[0] * s) by (nonlinear_arith)
                requires
                    0 <= c[0],
            ;
        }
    }
}

/// Elements at two different valid coordinates of the same depth occupy disjoint bytes.
pub proof fn lemma_coords_disjoint(maps: Seq<MapLayout>, k: Kind, c1: Seq<int>, c2: Seq<int>)
    requires
        kind_wf(maps, k),
        coords_valid(k, c1),
        coords_valid(k, c2),
        c1.len() == c2.len(),
        c1 != c2,
    ensures
        disjoint(
            coord_offset(k, c1),
            kind_size(maps, sub_kind(k, c1.len())),
            coord_offset(k, c2),
            kind_size(maps, sub_kind(k, c2.len())),
        ),
    decreases c1.len(),
{
    if c1.len() == 0 {
        assert(c1 =~= c2);
    } else if let Kind::Array(e, n, s) = k {
        let t1 = c1.drop_first();
        let t2 = c2.drop_first();
        if c1[0] == c2[0] {
            if t1 =~= t2 {
                assert forall|x: int| 0 <= x < c1.len() implies c1[x] == c2[x] by {
                    if x > 0 {
                        assert(c1[x] == t1[x - 1]);
                        assert(c2[x] == t2[x - 1]);
                    }
                }
                assert(c1 =~= c2);
            }
            lemma_coords_disjoint(maps, *e, t1, t2);
        } else {
            lemma_coords_in_range(maps, *e, t1);
            lemma_coords_in_range(maps, *e, t2);
            if c1[0] < c2[0] {
                lemma_mul_step(c1[0], c2[0], s as int);
            } else {
                lemma_mul_step(c2[0], c1[0], s as int);
            }
        }
    }
}

/// In an array of registers of any number of dimensions, writing the register at one
/// coordinate and reading it back gives the value written, and the register at any other
/// coordinate keeps its value.
pub proof fn lemma_grid_write_read<T: Integer, A: Access>(
    a: RegArray,
    c1: Seq<int>,
    c2: Seq<int>,
    r1: Reg<T, A>,
    r2: Reg<T, A>,
    m: Seq<u8>,
    v: T,
)
    requires
        a.wf(),
        a.base() + a.stride() * a.spec_len() <= m.len(),
        coords_valid(a.kind(), c1),
        coords_valid(a.kind(), c2),
        c1.len() == c2.len(),
        c1 != c2,
        sub_kind(a.kind(), c1.len()) == Kind::Reg(T::int_type(), A::permission()),
        r1.addr() == a.base() + coord_offset(a.kind(), c1),
        r2.addr() == a.base() + coord_offset(a.kind(), c2),
    ensures
        r1.spec_read(r1.spec_write(m, v)) == v,
        r2.spec_read(r1.spec_write(m, v)) == r2.spec_read(m),
{
    let k = a.kind();
    assert(kind_wf(a.maps(), k));
    lemma_coords_in_range(a.maps(), k, c1);
    lemma_coords_in_range(a.maps(), k, c2);
    lemma_coords_disjoint(a.maps(), k, c1, c2);
    lemma_write_read(r1, m, v);
    lemma_write_other(r1, r2, m, v);
}

/// In an array of registers, writing element `i` and reading it back gives the value written,
/// and element `j` keeps its value for every `j` other than `i`.
pub proof fn lemma_array_write_read<T: Integer, A: Access>(
    a: RegArray,
    i: int,
    j: int,
    ri: Reg<T, A>,
    rj: Reg<T, A>,
    m: Seq<u8>,
    v: T,
)
    requires
        a.wf(),
        a.base() + a.stride() * a.spec_len() <= m.len(),
        a.elem() == Kind::Reg(T::int_type(), A::permission()),
        0 <= i < a.spec_len(),
        0 <= j < a.spec_len(),
        i != j,
        ri.addr() == a.elem_addr(i),
        rj.addr() == a.elem_addr(j),
    ensures
        ri.spec_read(ri.spec_write(m, v)) == v,
        rj.spec_read(ri.spec_write(m, v)) == rj.spec_read(m),
{
    let c1 = seq![i];
    let c2 = seq![j];
    assert(c1.drop_first() =~= Seq::<int>::empty());
    assert(c2.drop_first() =~= Seq::<int>::empty());
    assert(c1[0] != c2[0]);
    assert(coords_valid(a.elem(), c1.drop_first()));
    assert(coords_valid(a.elem(), c2.drop_first()));
    assert(a.spec_len() as usize == a.spec_len());
    assert(coords_valid(a.kind(), c1));
    assert(coords_valid(a.kind(), c2));
    assert(sub_kind(a.elem(), 0) == a.elem());
    assert(coord_offset(a.elem(), c1.drop_first()) == 0);
    assert(coord_offset(a.elem(), c2.drop_first()) == 0);
    lemma_grid_write_read(a, c1, c2, ri, rj, m, v);
}

} // verus!
