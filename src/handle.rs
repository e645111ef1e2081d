//! Accessors bound to an address: map pointers, and the handles their fields hand out.
use vstd::prelude::*;

use crate::access::{Access, Permission, ReadWrite, Readable, Writable};
use crate::arr::RegArray;
use crate::integers::{IntType, Integer};
use crate::layout::{field_wf, kind_size, kind_wf, layout_wf, map_fields_wf, Kind, Layout, MapLayout};
use crate::reg::Reg;
use crate::region::{disjoint, Region};

verus! {

/// An untyped handle to one register: its address, integer type and permission.
#[derive(Clone, Copy, Debug)]
pub struct ScalarHandle {
    addr: usize,
    ty: IntType,
    perm: Permission,
}

impl ScalarHandle {
    pub closed spec fn addr(self) -> nat {
        self.addr as nat
    }

    pub closed spec fn int_type(self) -> IntType {
        self.ty
    }

    pub closed spec fn permission(self) -> Permission {
        self.perm
    }

    pub open spec fn wf(self) -> bool {
        self.int_type().spec_is_register() && self.addr() + self.int_type().spec_width()
            <= usize::MAX
    }

    pub fn as_ptr(&self) -> (r: usize)
        ensures
            r == self.addr(),
    {
        self.addr
    }

    pub fn get_int_type(&self) -> (r: IntType)
        ensures
            r == self.int_type(),
    {
        self.ty
    }

    pub fn get_permission(&self) -> (r: Permission)
        ensures
            r == self.permission(),
    {
        self.perm
    }
}

/// A pointer to a register map of a resolved layout, at a base address.
///
/// It owns nothing: it is the layout, the map's index in it, and an address.
#[derive(Clone, Copy)]
pub struct MapPtr<'a> {
    layout: &'a Layout,
    map: usize,
    base: usize,
}

/// What a field (or an array element) is accessed through.
#[derive(Clone, Copy)]
pub enum Handle<'a> {
    Scalar(ScalarHandle),
    Nested(MapPtr<'a>),
    Array(RegArray<'a>),
}

impl<'a> MapPtr<'a> {
    /// The maps of the layout.
    pub closed spec fn maps(self) -> Seq<MapLayout> {
        self.layout@
    }

    /// The index of the map in the layout.
    pub closed spec fn index(self) -> nat {
        self.map as nat
    }

    /// The base address.
    pub closed spec fn base(self) -> nat {
        self.base as nat
    }

    /// The resolved map that the pointer points to.
    pub open spec fn map_layout(self) -> MapLayout {
        self.maps()[self.index() as int]
    }

    pub open spec fn size(self) -> nat {
        self.map_layout().size as nat
    }

    pub open spec fn wf(self) -> bool {
        &&& layout_wf(self.maps())
        &&& self.index() < self.maps().len()
        &&& self.base() + self.size() <= usize::MAX
    }

    /// A pointer to map `map` of `layout` at address `base`. `None` when there is no such map,
    /// or when the map would reach past the largest address.
    pub fn new(layout: &'a Layout, map: usize, base: usize) -> (r: Option<MapPtr<'a>>)
        ensures
            r is Some <==> map < layout@.len() && base + layout@[map as int].size
                <= usize::MAX,
            r is Some ==> {
                let p = r->0;
                &&& p.wf()
                &&& p.maps() == layout@
                &&& p.index() == map
                &&& p.base() == base
            },
    {
        if map >= layout.len() {
            return None;
        }
        let size = layout.map(map).size;
        if base > usize::MAX - size {
            return None;
        }
        Some(MapPtr { layout, map, base })
    }

    /// A pointer to map `map` of `layout` at the start of `region`. `None` when there is no
    /// such map, or when the region is smaller than the map.
    pub fn from_region(layout: &'a Layout, map: usize, region: &Region) -> (r: Option<MapPtr<'a>>)
        ensures
            r is Some <==> map < layout@.len() && layout@[map as int].size <= region@.len(),
            r is Some ==> {
                let p = r->0;
                &&& p.wf()
                &&& p.maps() == layout@
                &&& p.index() == map
                &&& p.base() == 0
                &&& p.size() <= region@.len()
            },
    {
        if map >= layout.len() {
            return None;
        }
        if layout.map(map).size > region.len() {
            return None;
        }
        Some(MapPtr { layout, map, base: 0 })
    }

    /// The base address.
    pub fn as_ptr(&self) -> (r: usize)
        ensures
            r == self.base(),
    {
        self.base
    }

    /// The size of the map in bytes.
    pub fn size_of(&self) -> (r: usize)
        requires
            self.wf(),
        ensures
            r == self.size(),
    {
        self.layout.map(self.map).size
    }

    /// The number of fields of the map.
    pub fn field_count(&self) -> (r: usize)
        requires
            self.wf(),
        ensures
            r == self.map_layout().fields@.len(),
    {
        self.layout.map(self.map).fields.len()
    }

    /// The handle of field `i`, at the base address plus the field's offset. `None` when the
    /// map has no field `i`. The field lies inside the map.
    pub fn field(&self, i: usize) -> (r: Option<Handle<'a>>)
        requires
            self.wf(),
        ensures
            r is Some <==> i < self.map_layout().fields@.len(),
            r is Some ==> {
                let f = self.map_layout().fields@[i as int];
                &&& r->0.is_at(self.maps(), f.kind, (self.base() + f.offset) as nat)
                &&& r->0.wf()
                &&& r->0.addr() == self.base() + f.offset
                &&& r->0.size() == f.size
                &&& self.base() <= r->0.addr()
                &&& r->0.addr() + r->0.size() <= self.base() + self.size()
            },
    {
        let layout: &'a Layout = self.layout;
        let m: &'a MapLayout = layout.map(self.map);
        if i >= m.fields.len() {
            return None;
        }
        let f = &m.fields[i];
        proof {
            assert(map_fields_wf(layout@, layout@[self.map as int]));
            assert(field_wf(layout@, m.fields@[i as int], m.size as nat));
        }
        Some(Handle::at(layout, &f.kind, self.base + f.offset))
    }

    /// The handle of the first field named `name`. `None` when no field has that name.
    pub fn field_named(&self, name: &str) -> (r: Option<Handle<'a>>)
        requires
            self.wf(),
        ensures
            r is Some <==> exists|j: int|
                0 <= j < self.map_layout().fields@.len() && (
                #[trigger] self.map_layout().fields@[j]).name@ == name@,
            r is Some ==> exists|j: int|
                {
                    &&& 0 <= j < self.map_layout().fields@.len()
                    &&& (#[trigger] self.map_layout().fields@[j]).name@ == name@
                    &&& forall|jj: int|
                        0 <= jj < j ==> self.map_layout().fields@[jj].name@ != name@
                    &&& r->0.is_at(
                        self.maps(),
                        self.map_layout().fields@[j].kind,
                        (self.base() + self.map_layout().fields@[j].offset) as nat,
                    )
                    &&& r->0.wf()
                },
    {
        let m: &'a MapLayout = self.layout.map(self.map);
        let key = name.to_owned();
        let mut i: usize = 0;
        while i < m.fields.len()
            invariant
                self.wf(),
                *m == self.map_layout(),
                key@ == name@,
                i <= m.fields@.len(),
                forall|jj: int| 0 <= jj < i ==> m.fields@[jj].name@ != name@,
            decreases m.fields@.len() - i,
        {
            if m.fields[i].name == key {
                let r = self.field(i);
                assert(m.fields@[i as int].name@ == name@);
                return r;
            }
            i = i + 1;
        }
        None
    }
}

impl<'a> Handle<'a> {
    /// The address of the handle.
    pub open spec fn addr(self) -> nat {
        match self {
            Handle::Scalar(s) => s.addr(),
            Handle::Nested(p) => p.base(),
            Handle::Array(a) => a.base(),
        }
    }

    /// The number of bytes the handle covers.
    pub open spec fn size(self) -> nat {
        match self {
            Handle::Scalar(s) => s.int_type().spec_width(),
            Handle::Nested(p) => p.size(),
            Handle::Array(a) => a.stride() * a.spec_len(),
        }
    }

    pub open spec fn wf(self) -> bool {
        match self {
            Handle::Scalar(s) => s.wf(),
            Handle::Nested(p) => p.wf(),
            Handle::Array(a) => a.wf(),
        }
    }

    /// Whether the handle covers memory of `len` bytes.
    pub open spec fn fits(self, len: nat) -> bool {
        self.addr() + self.size() <= len
    }

    /// Whether the handle is the accessor of kind `kind` of the layout `maps`, at `addr`.
    pub open spec fn is_at(self, maps: Seq<MapLayout>, kind: Kind, addr: nat) -> bool {
        match kind {
            Kind::Reg(t, p) => match self {
                Handle::Scalar(s) => s.addr() == addr && s.int_type() == t && s.permission() == p,
                _ => false,
            },
            Kind::Nested(k) => match self {
                Handle::Nested(m) => m.maps() == maps && m.index() == k && m.base() == addr,
                _ => false,
            },
            Kind::Array(e, n, st) => match self {
                Handle::Array(a) => a.maps() == maps && a.elem() == *e && a.spec_len() == n
                    && a.stride() == st && a.base() == addr,
                _ => false,
            },
        }
    }

    /// The accessor of kind `kind` at `addr`.
    pub(crate) fn at(layout: &'a Layout, kind: &'a Kind, addr: usize) -> (r: Handle<'a>)
        requires
            layout.wf(),
            kind_wf(layout@, *kind),
            addr + kind_size(layout@, *kind) <= usize::MAX,
        ensures
            r.is_at(layout@, *kind, addr as nat),
            r.wf(),
            r.addr() == addr,
            r.size() == kind_size(layout@, *kind),
    {
        match kind {
            Kind::Reg(t, p) => Handle::Scalar(ScalarHandle { addr, ty: *t, perm: *p }),
            Kind::Nested(k) => Handle::Nested(MapPtr { layout, map: *k, base: addr }),
            Kind::Array(e, n, s) => {
                let elem: &'a Kind = &**e;
                Handle::Array(RegArray::new(layout, elem, addr, *n, *s))
            },
        }
    }

    /// Whether the handle is a register of integer type `T` declared with the permission of
    /// the tag `A`.
    pub open spec fn grants<T: Integer, A: Access>(self) -> bool {
        match self {
            Handle::Scalar(s) => s.int_type() == T::int_type() && s.permission() == A::permission(),
            _ => false,
        }
    }

    /// The typed register behind the handle. `Some` exactly when the handle is a scalar of
    /// integer type `T` with the permission of `A`: a register can only be had with the
    /// permission it was declared with.
    pub fn reg<T: Integer, A: Access>(&self) -> (r: Option<Reg<T, A>>)
        ensures
            r is Some <==> self.grants::<T, A>(),
            r is Some ==> r->0.addr() == self.addr(),
    {
        match self {
            Handle::Scalar(s) => {
                if s.ty == T::get_int_type() && s.perm == A::get_permission() {
                    Some(Reg::from_addr(s.addr))
                } else {
                    None
                }
            },
            _ => None,
        }
    }

    /// The map pointer behind the handle, if it is a nested map.
    pub fn nested(&self) -> (r: Option<MapPtr<'a>>)
        ensures
            r is Some <==> *self is Nested,
            r is Some ==> *self == Handle::Nested(r->0),
    {
        match self {
            Handle::Nested(p) => Some(*p),
            _ => None,
        }
    }

    /// The array handle behind the handle, if it is an array.
    pub fn array(&self) -> (r: Option<RegArray<'a>>)
        ensures
            r is Some <==> *self is Array,
            r is Some ==> *self == Handle::Array(r->0),
    {
        match self {
            Handle::Array(a) => Some(*a),
            _ => None,
        }
    }
}

/// A register declared write-only is never handed out with a tag that allows reading, and
/// one declared read-only never with a tag that allows writing; one declared read-write is
/// handed out as `ReadWrite`, which allows both.
pub proof fn lemma_permission_enforced<T: Integer, R: Readable, W: Writable>(h: Handle)
    requires
        h is Scalar,
    ensures
        h->Scalar_0.permission() == Permission::WriteOnly ==> !h.grants::<T, R>(),
        h->Scalar_0.permission() == Permission::ReadOnly ==> !h.grants::<T, W>(),
        h->Scalar_0.permission() == Permission::ReadWrite && h->Scalar_0.int_type()
            == T::int_type() ==> h.grants::<T, ReadWrite>(),
{
    R::lemma_readable();
    W::lemma_writable();
}

/// Through a nested map: the register at field `j` of the map at field `i` of `p` lies at the
/// base of `p` plus both offsets, inside the nested map and inside `p`. Writing it changes only
/// its own bytes, and reading it back gives the value written.
pub proof fn lemma_nested_write_read<T: Integer, A: Access>(
    p: MapPtr,
    i: int,
    q: MapPtr,
    j: int,
    r: Reg<T, A>,
    m: Seq<u8>,
    v: T,
)
    requires
        p.wf(),
        p.base() + p.size() <= m.len(),
        0 <= i < p.map_layout().fields@.len(),
        p.map_layout().fields@[i].kind == Kind::Nested(q.index() as usize),
        Handle::Nested(q).is_at(
            p.maps(),
            p.map_layout().fields@[i].kind,
            (p.base() + p.map_layout().fields@[i].offset) as nat,
        ),
        0 <= j < q.map_layout().fields@.len(),
        q.map_layout().fields@[j].kind == Kind::Reg(T::int_type(), A::permission()),
        r.addr() == q.base() + q.map_layout().fields@[j].offset,
    ensures
        r.addr() == p.base() + p.map_layout().fields@[i].offset + q.map_layout().fields@[j].offset,
        q.base() <= r.addr(),
        r.addr() + Reg::<T, A>::width() <= q.base() + q.size(),
        q.base() + q.size() <= p.base() + p.size(),
        r.spec_read(r.spec_write(m, v)) == v,
        forall|b: int|
            0 <= b < m.len() && disjoint(b, 1, r.addr() as int, Reg::<T, A>::width()) ==> (
            #[trigger] r.spec_write(m, v)[b]) == m[b],
{
    let fi = p.map_layout().fields@[i];
    assert(map_fields_wf(p.maps(), p.map_layout()));
    assert(field_wf(p.maps(), fi, p.size()));
    let fj = q.map_layout().fields@[j];
    assert(map_fields_wf(q.maps(), q.map_layout()));
    assert(field_wf(q.maps(), fj, q.size()));
    crate::reg::lemma_write_read(r, m, v);
}

} // verus!
