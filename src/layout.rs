//! Layout descriptions of register maps, and their resolution into byte offsets and sizes.
//!
//! Fields are placed in declaration order, each at the next offset that is a multiple of its
//! own alignment, as the C representation does. A scalar's alignment is its width, a nested
//! map's is the map's alignment, and an array's is its element's. A map's size is the end of its
//! last field rounded up to the map's alignment.
use vstd::prelude::*;

use crate::access::Permission;
use crate::integers::IntType;

verus! {

/// The type of a field in a layout description.
pub enum FieldType {
    /// A scalar register.
    Int(IntType, Permission),
    /// A nested register map: the index of a map that comes earlier in the same schema.
    Nested(usize),
    /// A fixed-size array of elements of the given type, with the given length.
    Array(Box<FieldType>, usize),
}

impl FieldType {
    /// A scalar register with the default permission, read-write.
    pub fn scalar(t: IntType) -> (r: FieldType)
        ensures
            r == FieldType::Int(t, Permission::ReadWrite),
    {
        FieldType::Int(t, Permission::ReadWrite)
    }

    /// An array of `len` elements of type `elem`.
    pub fn array(elem: FieldType, len: usize) -> (r: FieldType)
        ensures
            r == FieldType::Array(Box::new(elem), len),
    {
        FieldType::Array(Box::new(elem), len)
    }
}

/// A named field of a layout description.
pub struct FieldDesc {
    pub name: String,
    pub ty: FieldType,
}

/// The representation that a layout description asks for. Only `C` (sequential placement, no
/// reordering) is supported.
#[derive(Clone, Copy, Debug, PartialEq, Eq, Structural)]
pub enum Repr {
    C,
    Rust,
    Transparent,
    Packed,
}

/// The description of one register map: its fields in order, its representation, and an
/// optional raised alignment.
pub struct MapDesc {
    pub name: String,
    pub repr: Repr,
    pub align: Option<usize>,
    pub fields: Vec<FieldDesc>,
}

/// Why a schema has no layout.
#[derive(Clone, Copy, Debug, PartialEq, Eq, Structural)]
pub enum LayoutError {
    /// A representation other than `C` (or `Packed`) was asked for.
    UnsupportedRepr,
    /// A packed representation was asked for: it lowers alignment.
    Packed,
    /// An explicit alignment that is not a power of two.
    InvalidAlignment,
    /// An explicit alignment below the natural alignment of the map.
    AlignmentReduced,
    /// A `usize` or `isize` field.
    PointerSized,
    /// A nested map that is not an earlier map of the schema.
    UnknownMap,
    /// A size or an offset that does not fit in `usize`.
    TooLarge,
}

/// The resolved kind of a field: what an accessor hands out for it.
pub enum Kind {
    /// A scalar register of the given type and permission.
    Reg(IntType, Permission),
    /// A nested map, by its index in the layout.
    Nested(usize),
    /// An array of the given element kind, with its length and stride (element size) in bytes.
    Array(Box<Kind>, usize, usize),
}

/// A resolved field: where it lies within its map.
pub struct FieldLayout {
    pub name: String,
    pub offset: usize,
    pub size: usize,
    pub kind: Kind,
}

/// A resolved register map.
pub struct MapLayout {
    pub name: String,
    pub size: usize,
    pub align: usize,
    pub fields: Vec<FieldLayout>,
}

/// `x` rounded up to a multiple of `a`.
pub open spec fn round_up(x: nat, a: nat) -> nat {
    if a == 0 || x % a == 0 {
        x
    } else {
        (x + (a - x % a)) as nat
    }
}

pub open spec fn is_pow2(x: nat) -> bool
    decreases x,
{
    if x <= 1 {
        x == 1
    } else {
        x % 2 == 0 && is_pow2(x / 2)
    }
}

pub open spec fn max(a: nat, b: nat) -> nat {
    if a >= b {
        a
    } else {
        b
    }
}

/// Size and alignment of a field type, given the sizes and alignments `dd` of the maps that
/// precede it.
pub open spec fn type_dims(dd: Seq<(nat, nat)>, t: FieldType) -> Result<(nat, nat), LayoutError>
    decreases t,
{
    match t {
        FieldType::Int(it, _) => if it.spec_is_register() {
            Ok((it.spec_width(), it.spec_width()))
        } else {
            Err(LayoutError::PointerSized)
        },
        FieldType::Nested(k) => if k < dd.len() {
            Ok(dd[k as int])
        } else {
            Err(LayoutError::UnknownMap)
        },
        FieldType::Array(e, n) => match type_dims(dd, *e) {
            Ok(d) => if d.0 * n > usize::MAX {
                Err(LayoutError::TooLarge)
            } else {
                Ok(((d.0 * n) as nat, d.1))
            },
            Err(x) => Err(x),
        },
    }
}

/// Size of a field type (zero where it has none).
pub open spec fn type_size(dd: Seq<(nat, nat)>, t: FieldType) -> nat {
    match type_dims(dd, t) {
        Ok(d) => d.0,
        Err(_) => 0,
    }
}

/// The kind that a field of type `t` resolves to.
pub open spec fn kind_of(dd: Seq<(nat, nat)>, t: FieldType) -> Kind
    decreases t,
{
    match t {
        FieldType::Int(it, p) => Kind::Reg(it, p),
        FieldType::Nested(k) => Kind::Nested(k),
        FieldType::Array(e, n) => Kind::Array(
            Box::new(kind_of(dd, *e)),
            n,
            type_size(dd, *e) as usize,
        ),
    }
}

/// The end of the fields `fs` placed in order, and the largest of their alignments (at least 1).
pub open spec fn fields_dims(dd: Seq<(nat, nat)>, fs: Seq<FieldDesc>) -> Result<
    (nat, nat),
    LayoutError,
>
    decreases fs.len(),
{
    if fs.len() == 0 {
        Ok((0, 1))
    } else {
        match fields_dims(dd, fs.drop_last()) {
            Err(x) => Err(x),
            Ok(p) => match type_dims(dd, fs.last().ty) {
                Err(x) => Err(x),
                Ok(d) => if round_up(p.0, d.1) + d.0 > usize::MAX {
                    Err(LayoutError::TooLarge)
                } else {
                    Ok((round_up(p.0, d.1) + d.0, max(p.1, d.1)))
                },
            },
        }
    }
}

/// The offset of field `j` of `fs`: the end of the fields before it, rounded up to its alignment.
pub open spec fn field_offset(dd: Seq<(nat, nat)>, fs: Seq<FieldDesc>, j: int) -> nat {
    match (fields_dims(dd, fs.take(j)), type_dims(dd, fs[j].ty)) {
        (Ok(p), Ok(d)) => round_up(p.0, d.1),
        _ => 0,
    }
}

/// Size and alignment of a map, given the maps that precede it.
pub open spec fn map_dims(dd: Seq<(nat, nat)>, d: MapDesc) -> Result<(nat, nat), LayoutError> {
    if d.repr == Repr::Packed {
        Err(LayoutError::Packed)
    } else if d.repr != Repr::C {
        Err(LayoutError::UnsupportedRepr)
    } else if d.align is Some && !is_pow2(d.align->0 as nat) {
        Err(LayoutError::InvalidAlignment)
    } else {
        match fields_dims(dd, d.fields@) {
            Err(x) => Err(x),
            Ok(p) => {
                let a = match d.align {
                    Some(x) => x as nat,
                    None => p.1,
                };
                if a < p.1 {
                    Err(LayoutError::AlignmentReduced)
                } else if round_up(p.0, a) > usize::MAX {
                    Err(LayoutError::TooLarge)
                } else {
                    Ok((round_up(p.0, a), a))
                }
            },
        }
    }
}

/// Sizes and alignments of all the maps of a schema, or the first error met.
pub open spec fn schema_dims(maps: Seq<MapDesc>) -> Result<Seq<(nat, nat)>, LayoutError>
    decreases maps.len(),
{
    if maps.len() == 0 {
        Ok(Seq::empty())
    } else {
        match schema_dims(maps.drop_last()) {
            Err(x) => Err(x),
            Ok(dd) => match map_dims(dd, maps.last()) {
                Err(x) => Err(x),
                Ok(m) => Ok(dd.push(m)),
            },
        }
    }
}

/// Sizes and alignments of resolved maps.
pub open spec fn dims(maps: Seq<MapLayout>) -> Seq<(nat, nat)> {
    maps.map_values(|m: MapLayout| (m.size as nat, m.align as nat))
}

/// Whether the resolved map `m` is the layout of the description `d`, given the maps `dd` that
/// precede it.
pub open spec fn map_matches(dd: Seq<(nat, nat)>, d: MapDesc, m: MapLayout) -> bool {
    &&& map_dims(dd, d) == Ok::<(nat, nat), LayoutError>((m.size as nat, m.align as nat))
    &&& m.name@ == d.name@
    &&& m.fields@.len() == d.fields@.len()
    &&& forall|j: int| 0 <= j < m.fields@.len() ==> field_matches(dd, d.fields@, j, m.fields@[j])
}

pub open spec fn field_matches(dd: Seq<(nat, nat)>, fs: Seq<FieldDesc>, j: int, f: FieldLayout) -> bool {
    &&& f.name@ == fs[j].name@
    &&& f.offset == field_offset(dd, fs, j)
    &&& f.size == type_size(dd, fs[j].ty)
    &&& f.kind == kind_of(dd, fs[j].ty)
}

/// Size of a resolved kind, given the resolved maps.
pub open spec fn kind_size(maps: Seq<MapLayout>, k: Kind) -> nat
    decreases k,
{
    match k {
        Kind::Reg(t, _) => t.spec_width(),
        Kind::Nested(i) => if i < maps.len() {
            maps[i as int].size as nat
        } else {
            0
        },
        Kind::Array(_, n, s) => (s * n) as nat,
    }
}

/// Whether a resolved kind is consistent with the resolved maps: scalars are register types,
/// nested maps exist, and an array's stride is its element's size.
pub open spec fn kind_wf(maps: Seq<MapLayout>, k: Kind) -> bool
    decreases k,
{
    match k {
        Kind::Reg(t, _) => t.spec_is_register(),
        Kind::Nested(i) => i < maps.len(),
        Kind::Array(e, n, s) => kind_wf(maps, *e) && s as nat == kind_size(maps, *e) && s * n
            <= usize::MAX,
    }
}

/// Whether a resolved field is consistent with the resolved maps and lies inside a map of
/// `size` bytes.
pub open spec fn field_wf(maps: Seq<MapLayout>, f: FieldLayout, size: nat) -> bool {
    &&& kind_wf(maps, f.kind)
    &&& f.size as nat == kind_size(maps, f.kind)
    &&& f.offset + f.size <= size
}

pub open spec fn map_fields_wf(maps: Seq<MapLayout>, m: MapLayout) -> bool {
    forall|j: int| 0 <= j < m.fields@.len() ==> field_wf(maps, #[trigger] m.fields@[j], m.size as nat)
}

/// Whether every field of every map is consistent with the maps and lies inside its map.
pub open spec fn layout_wf(maps: Seq<MapLayout>) -> bool {
    forall|i: int| 0 <= i < maps.len() ==> map_fields_wf(maps, #[trigger] maps[i])
}

/// A resolved kind stays consistent, with the same size, when maps are added after the ones
/// it was checked against.
pub proof fn lemma_kind_extend(maps: Seq<MapLayout>, more: Seq<MapLayout>, k: Kind)
    requires
        kind_wf(maps, k),
        maps.len() <= more.len(),
        forall|i: int| 0 <= i < maps.len() ==> more[i] == maps[i],
    ensures
        kind_wf(more, k),
        kind_size(more, k) == kind_size(maps, k),
    decreases k,
{
    if let Kind::Array(e, n, s) = k {
        lemma_kind_extend(maps, more, *e);
    }
}

proof fn lemma_layout_push(maps: Seq<MapLayout>, m: MapLayout)
    requires
        layout_wf(maps),
        map_fields_wf(maps, m),
    ensures
        layout_wf(maps.push(m)),
{
    let more = maps.push(m);
    assert forall|i: int| 0 <= i < more.len() implies map_fields_wf(more, #[trigger] more[i]) by {
        let mi = more[i];
        assert forall|j: int| 0 <= j < mi.fields@.len() implies field_wf(
            more,
            #[trigger] mi.fields@[j],
            mi.size as nat,
        ) by {
            lemma_kind_extend(maps, more, mi.fields@[j].kind);
        }
    }
}

/// The kind that a field type resolves to is consistent with the maps it was resolved against,
/// and has the type's size.
proof fn lemma_kind_of(maps: Seq<MapLayout>, t: FieldType)
    requires
        type_dims(dims(maps), t) is Ok,
    ensures
        kind_wf(maps, kind_of(dims(maps), t)),
        kind_size(maps, kind_of(dims(maps), t)) == type_size(dims(maps), t),
        type_size(dims(maps), t) <= usize::MAX,
    decreases t,
{
    match t {
        FieldType::Int(it, _) => {},
        FieldType::Nested(k) => {},
        FieldType::Array(e, n) => {
            lemma_kind_of(maps, *e);
            let s = type_size(dims(maps), *e);
            if n > 0 {
                assert(s <= s * n) by (nonlinear_arith)
                    requires
                        n > 0,
                ;
            }
        },
    }
}

fn round_up_checked(x: usize, a: usize) -> (r: Option<usize>)
    requires
        a >= 1,
    ensures
        r == (if round_up(x as nat, a as nat) <= usize::MAX {
            Some(round_up(x as nat, a as nat) as usize)
        } else {
            None::<usize>
        }),
{
    let rem = x % a;
    if rem == 0 {
        Some(x)
    } else {
        x.checked_add(a - rem)
    }
}

fn is_power_of_two(x: usize) -> (r: bool)
    ensures
        r == is_pow2(x as nat),
{
    let mut v: usize = x;
    while v > 1 && v % 2 == 0
        invariant
            is_pow2(v as nat) == is_pow2(x as nat),
        decreases v,
    {
        v = v / 2;
    }
    v == 1
}

fn resolve_type(done: &Vec<MapLayout>, t: &FieldType) -> (r: Result<(Kind, usize, usize), LayoutError>)
    requires
        forall|i: int| 0 <= i < done@.len() ==> done@[i].align >= 1,
    ensures
        match r {
            Ok(x) => {
                &&& type_dims(dims(done@), *t) == Ok::<(nat, nat), LayoutError>(
                    (x.1 as nat, x.2 as nat),
                )
                &&& x.0 == kind_of(dims(done@), *t)
                &&& x.2 >= 1
            },
            Err(e) => type_dims(dims(done@), *t) == Err::<(nat, nat), LayoutError>(e),
        },
    decreases t,
{
    match t {
        FieldType::Int(it, p) => {
            if it.is_register() {
                let w = it.width();
                Ok((Kind::Reg(*it, *p), w, w))
            } else {
                Err(LayoutError::PointerSized)
            }
        },
        FieldType::Nested(k) => {
            if *k < done.len() {
                Ok((Kind::Nested(*k), done[*k].size, done[*k].align))
            } else {
                Err(LayoutError::UnknownMap)
            }
        },
        FieldType::Array(e, n) => {
            match resolve_type(done, e) {
                Err(x) => Err(x),
                Ok((ek, s, a)) => match s.checked_mul(*n) {
                    None => Err(LayoutError::TooLarge),
                    Some(total) => Ok((Kind::Array(Box::new(ek), *n, s), total, a)),
                },
            }
        },
    }
}

/// An error in the first `k` fields is the error of all of them.
proof fn lemma_fields_err_prefix(dd: Seq<(nat, nat)>, fs: Seq<FieldDesc>, k: int)
    requires
        0 <= k <= fs.len(),
        fields_dims(dd, fs.take(k)) is Err,
    ensures
        fields_dims(dd, fs) == fields_dims(dd, fs.take(k)),
    decreases fs.len() - k,
{
    if k == fs.len() {
        assert(fs.take(k) =~= fs);
    } else {
        assert(fs.take(k + 1).drop_last() =~= fs.take(k));
        lemma_fields_err_prefix(dd, fs, k + 1);
    }
}

/// An error in the first `k` maps is the error of the schema.
proof fn lemma_schema_err_prefix(maps: Seq<MapDesc>, k: int)
    requires
        0 <= k <= maps.len(),
        schema_dims(maps.take(k)) is Err,
    ensures
        schema_dims(maps) == schema_dims(maps.take(k)),
    decreases maps.len() - k,
{
    if k == maps.len() {
        assert(maps.take(k) =~= maps);
    } else {
        assert(maps.take(k + 1).drop_last() =~= maps.take(k));
        lemma_schema_err_prefix(maps, k + 1);
    }
}

fn resolve_map(done: &Vec<MapLayout>, d: &MapDesc) -> (r: Result<MapLayout, LayoutError>)
    requires
        forall|i: int| 0 <= i < done@.len() ==> done@[i].align >= 1,
    ensures
        match r {
            Ok(m) => {
                &&& map_matches(dims(done@), *d, m)
                &&& map_fields_wf(done@, m)
                &&& m.align >= 1
            },
            Err(e) => map_dims(dims(done@), *d) == Err::<(nat, nat), LayoutError>(e),
        },
{
    let ghost dd = dims(done@);
    let ghost fs = d.fields@;
    match d.repr {
        Repr::C => {},
        Repr::Packed => {
            return Err(LayoutError::Packed);
        },
        _ => {
            return Err(LayoutError::UnsupportedRepr);
        },
    }
    if let Some(a) = d.align {
        if !is_power_of_two(a) {
            return Err(LayoutError::InvalidAlignment);
        }
    }
    let mut fields: Vec<FieldLayout> = Vec::new();
    let mut end: usize = 0;
    let mut max_align: usize = 1;
    let mut j: usize = 0;
    proof {
        assert(fs.take(0) =~= Seq::<FieldDesc>::empty());
    }
    while j < d.fields.len()
        invariant
            dd == dims(done@),
            fs == d.fields@,
            d.repr == Repr::C,
            d.align is Some ==> is_pow2(d.align->0 as nat),
            forall|i: int| 0 <= i < done@.len() ==> done@[i].align >= 1,
            j <= fs.len(),
            fields@.len() == j,
            max_align >= 1,
            fields_dims(dd, fs.take(j as int)) == Ok::<(nat, nat), LayoutError>(
                (end as nat, max_align as nat),
            ),
            forall|jj: int|
                0 <= jj < j ==> {
                    &&& field_matches(dd, fs, jj, #[trigger] fields@[jj])
                    &&& field_wf(done@, fields@[jj], end as nat)
                },
        decreases fs.len() - j,
    {
        let fd = &d.fields[j];
        proof {
            assert(fs.take(j + 1).drop_last() =~= fs.take(j as int));
            assert(fs.take(j + 1).last() == fs[j as int]);
        }
        match resolve_type(done, &fd.ty) {
            Err(x) => {
                proof {
                    lemma_fields_err_prefix(dd, fs, j + 1);
                }
                return Err(x);
            },
            Ok((kind, size, align)) => {
                proof {
                    lemma_kind_of(done@, fd.ty);
                }
                let offset = match round_up_checked(end, align) {
                    None => {
                        proof {
                            lemma_fields_err_prefix(dd, fs, j + 1);
                        }
                        return Err(LayoutError::TooLarge);
                    },
                    Some(o) => o,
                };
                let new_end = match offset.checked_add(size) {
                    None => {
                        proof {
                            lemma_fields_err_prefix(dd, fs, j + 1);
                        }
                        return Err(LayoutError::TooLarge);
                    },
                    Some(e) => e,
                };
                let f = FieldLayout { name: fd.name.clone(), offset, size, kind };
                fields.push(f);
                end = new_end;
                if align > max_align {
                    max_align = align;
                }
                j = j + 1;
            },
        }
    }
    proof {
        assert(fs.take(j as int) =~= fs);
    }
    let align = match d.align {
        None => max_align,
        Some(a) => {
            if a < max_align {
                return Err(LayoutError::AlignmentReduced);
            }
            a
        },
    };
    let size = match round_up_checked(end, align) {
        None => {
            return Err(LayoutError::TooLarge);
        },
        Some(sz) => sz,
    };
    let m = MapLayout { name: d.name.clone(), size, align, fields };
    assert forall|jj: int| 0 <= jj < m.fields@.len() implies field_wf(
        done@,
        #[trigger] m.fields@[jj],
        m.size as nat,
    ) by {
        assert(field_wf(done@, fields@[jj], end as nat));
    }
    Ok(m)
}

/// A resolved schema: the layout of every map, in the schema's order.
pub struct Layout {
    maps: Vec<MapLayout>,
}

impl View for Layout {
    type V = Seq<MapLayout>;

    closed spec fn view(&self) -> Seq<MapLayout> {
        self.maps@
    }
}

impl Layout {
    #[verifier::type_invariant]
    spec fn inv(self) -> bool {
        layout_wf(self.maps@)
    }

    /// Every field of every map is consistent with the maps and lies inside its map.
    pub open spec fn wf(&self) -> bool {
        layout_wf(self@)
    }

    /// The number of maps.
    pub fn len(&self) -> (r: usize)
        ensures
            r == self@.len(),
            self.wf(),
    {
        proof {
            use_type_invariant(self);
        }
        self.maps.len()
    }

    /// The resolved map at index `i`.
    pub fn map(&self, i: usize) -> (r: &MapLayout)
        requires
            i < self@.len(),
        ensures
            *r == self@[i as int],
            self.wf(),
    {
        proof {
            use_type_invariant(self);
        }
        &self.maps[i]
    }
}

/// Resolves a schema: each map in order, each nested map referring to an earlier one.
///
/// Succeeds exactly when every map has a layout; the error is then the first one met, map by
/// map and field by field. On success, each map's size and alignment, and each field's offset,
/// size and kind, are those of the sequential placement that `schema_dims` describes.
pub fn resolve(schema: &Vec<MapDesc>) -> (r: Result<Layout, LayoutError>)
    ensures
        match r {
            Ok(l) => {
                &&& l.wf()
                &&& schema_dims(schema@) == Ok::<Seq<(nat, nat)>, LayoutError>(dims(l@))
                &&& l@.len() == schema@.len()
                &&& forall|i: int|
                    0 <= i < l@.len() ==> map_matches(
                        dims(l@.take(i)),
                        schema@[i],
                        #[trigger] l@[i],
                    )
            },
            Err(e) => schema_dims(schema@) == Err::<Seq<(nat, nat)>, LayoutError>(e),
        },
{
    let mut maps: Vec<MapLayout> = Vec::new();
    let mut i: usize = 0;
    proof {
        assert(schema@.take(0) =~= Seq::<MapDesc>::empty());
        assert(dims(maps@) =~= Seq::<(nat, nat)>::empty());
    }
    while i < schema.len()
        invariant
            i <= schema@.len(),
            maps@.len() == i,
            schema_dims(schema@.take(i as int)) == Ok::<Seq<(nat, nat)>, LayoutError>(
                dims(maps@),
            ),
            layout_wf(maps@),
            forall|k: int| 0 <= k < maps@.len() ==> maps@[k].align >= 1,
            forall|k: int|
                0 <= k < maps@.len() ==> map_matches(
                    dims(maps@.take(k)),
                    schema@[k],
                    #[trigger] maps@[k],
                ),
        decreases schema@.len() - i,
    {
        proof {
            assert(schema@.take(i + 1).drop_last() =~= schema@.take(i as int));
            assert(schema@.take(i + 1).last() == schema@[i as int]);
        }
        match resolve_map(&maps, &schema[i]) {
            Err(e) => {
                proof {
                    lemma_schema_err_prefix(schema@, i + 1);
                }
                return Err(e);
            },
            Ok(m) => {
                let ghost old_maps = maps@;
                proof {
                    lemma_layout_push(old_maps, m);
                    assert(dims(old_maps.push(m)) =~= dims(old_maps).push(
                        (m.size as nat, m.align as nat),
                    ));
                    assert(old_maps.push(m).take(i as int) =~= old_maps);
                    assert forall|k: int| 0 <= k < old_maps.len() implies old_maps.push(m).take(k)
                        =~= old_maps.take(k) by {}
                }
                maps.push(m);
                i = i + 1;
            },
        }
    }
    proof {
        assert(schema@.take(i as int) =~= schema@);
    }
    Ok(Layout { maps })
}

} // verus!
