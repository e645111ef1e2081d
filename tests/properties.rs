use reg_map::access::{Permission, ReadOnly, ReadWrite, WriteOnly};
use reg_map::arr::BoundsError;
use reg_map::integers::{IntType, Integer};
use reg_map::layout::{resolve, FieldDesc, FieldType, Layout, LayoutError, MapDesc, Repr};
use reg_map::region::Region;
use reg_map::{Handle, MapPtr, Reg, RegArray};

fn fd(name: &str, ty: FieldType) -> FieldDesc {
    FieldDesc { name: name.to_string(), ty }
}

fn c_map(name: &str, fields: Vec<FieldDesc>) -> MapDesc {
    MapDesc { name: name.to_string(), repr: Repr::C, align: None, fields }
}

fn one_map(fields: Vec<FieldDesc>) -> Layout {
    resolve(&vec![c_map("M", fields)]).unwrap()
}

fn offsets(layout: &Layout, index: usize) -> Vec<usize> {
    layout.map(index).fields.iter().map(|f| f.offset).collect()
}

fn round_trip<T: Integer + PartialEq + std::fmt::Debug>(t: IntType, values: &[T]) {
    let layout = one_map(vec![fd("pad", FieldType::scalar(IntType::U8)), fd("r", FieldType::scalar(t))]);
    let size = layout.map(0).size;
    let mut region = Region::from_bytes(vec![0xa5u8; size]);
    let ptr = MapPtr::from_region(&layout, 0, &region).unwrap();
    let r: Reg<T, ReadWrite> = ptr.field(1).unwrap().reg::<T, ReadWrite>().unwrap();
    for &v in values {
        r.write(&mut region, v);
        assert_eq!(r.read(&region), v);
        assert_eq!(region.as_bytes()[0], 0xa5);
    }
}

#[test]
fn write_then_read_gives_the_value_for_every_width() {
    round_trip(IntType::U8, &[0u8, 1, 0x7f, 0x80, u8::MAX]);
    round_trip(IntType::U16, &[0u16, 0x1234, u16::MAX]);
    round_trip(IntType::U32, &[0u32, 0xdead_beef, u32::MAX]);
    round_trip(IntType::U64, &[0u64, 0x0123_4567_89ab_cdef, u64::MAX]);
    round_trip(IntType::U128, &[0u128, 1 << 100, u128::MAX]);
    round_trip(IntType::I8, &[0i8, -1, i8::MIN, i8::MAX]);
    round_trip(IntType::I16, &[0i16, -300, i16::MIN, i16::MAX]);
    round_trip(IntType::I32, &[0i32, -70000, i32::MIN, i32::MAX]);
    round_trip(IntType::I64, &[0i64, -1, i64::MIN, i64::MAX]);
    round_trip(IntType::I128, &[0i128, -5, i128::MIN, i128::MAX]);
}

#[test]
fn stores_are_little_endian() {
    let mut region = Region::zeroed(4);
    region.store(1, 2, 0x0102);
    assert_eq!(region.as_bytes(), &[0, 2, 1, 0]);
    assert_eq!(region.load(1, 2), 0x0102);
    assert_eq!(region.load(0, 4), 0x0001_0200);
}

#[test]
fn offsets_of_u64_then_u32() {
    let layout = one_map(vec![fd("f1", FieldType::scalar(IntType::U64)), fd("f2", FieldType::scalar(IntType::U32))]);
    assert_eq!(offsets(&layout, 0), vec![0, 8]);
    assert_eq!(layout.map(0).size, 16);
    assert_eq!(layout.map(0).align, 8);
}

#[test]
fn offsets_of_u8_then_u16() {
    let layout = one_map(vec![fd("f1", FieldType::scalar(IntType::U8)), fd("f2", FieldType::scalar(IntType::U16))]);
    assert_eq!(offsets(&layout, 0), vec![0, 2]);
    assert_eq!(layout.map(0).size, 4);
    assert_eq!(layout.map(0).align, 2);
}

#[test]
fn raised_alignment_pads_nested_map() {
    let schema = vec![
        MapDesc {
            name: "Data".to_string(),
            repr: Repr::C,
            align: Some(4096),
            fields: vec![fd("data", FieldType::array(FieldType::scalar(IntType::U64), 512))],
        },
        c_map(
            "Base",
            vec![
                fd("foo", FieldType::scalar(IntType::U32)),
                fd("baz", FieldType::scalar(IntType::U32)),
                fd("aligned", FieldType::Nested(0)),
            ],
        ),
    ];
    let layout = resolve(&schema).unwrap();
    assert_eq!(layout.map(0).size, 4096);
    assert_eq!(layout.map(0).align, 4096);
    assert_eq!(offsets(&layout, 1), vec![0, 4, 4096]);
    assert_eq!(layout.map(1).size, 8192);
}

#[test]
fn every_layout_error() {
    let mut m = c_map("M", vec![fd("a", FieldType::scalar(IntType::U64))]);
    m.repr = Repr::Rust;
    assert_eq!(resolve(&vec![m]).err(), Some(LayoutError::UnsupportedRepr));
    let mut m = c_map("M", vec![fd("a", FieldType::scalar(IntType::U64))]);
    m.repr = Repr::Transparent;
    assert_eq!(resolve(&vec![m]).err(), Some(LayoutError::UnsupportedRepr));
    let mut m = c_map("M", vec![fd("a", FieldType::scalar(IntType::U64))]);
    m.repr = Repr::Packed;
    assert_eq!(resolve(&vec![m]).err(), Some(LayoutError::Packed));
    let mut m = c_map("M", vec![fd("a", FieldType::scalar(IntType::U64))]);
    m.align = Some(3);
    assert_eq!(resolve(&vec![m]).err(), Some(LayoutError::InvalidAlignment));
    let mut m = c_map("M", vec![fd("a", FieldType::scalar(IntType::U64))]);
    m.align = Some(2);
    assert_eq!(resolve(&vec![m]).err(), Some(LayoutError::AlignmentReduced));
    let m = c_map("M", vec![fd("a", FieldType::scalar(IntType::Usize))]);
    assert_eq!(resolve(&vec![m]).err(), Some(LayoutError::PointerSized));
    let m = c_map("M", vec![fd("a", FieldType::array(FieldType::scalar(IntType::Isize), 4))]);
    assert_eq!(resolve(&vec![m]).err(), Some(LayoutError::PointerSized));
    let m = c_map("M", vec![fd("a", FieldType::Nested(0))]);
    assert_eq!(resolve(&vec![m]).err(), Some(LayoutError::UnknownMap));
    let m = c_map("M", vec![fd("a", FieldType::array(FieldType::scalar(IntType::U64), usize::MAX / 4))]);
    assert_eq!(resolve(&vec![m]).err(), Some(LayoutError::TooLarge));
    let m = c_map(
        "M",
        vec![
            fd("a", FieldType::scalar(IntType::U8)),
            fd("b", FieldType::array(FieldType::scalar(IntType::U8), usize::MAX)),
        ],
    );
    assert_eq!(resolve(&vec![m]).err(), Some(LayoutError::TooLarge));
}

#[test]
fn equal_alignment_override_is_accepted() {
    let mut m = c_map("M", vec![fd("a", FieldType::scalar(IntType::U64))]);
    m.align = Some(8);
    let layout = resolve(&vec![m]).unwrap();
    assert_eq!(layout.map(0).size, 8);
}

#[test]
fn empty_map_has_size_zero() {
    let layout = one_map(vec![]);
    assert_eq!(layout.map(0).size, 0);
    assert_eq!(layout.map(0).align, 1);
}

fn permissions_layout() -> Layout {
    one_map(vec![
        fd("ro", FieldType::Int(IntType::U64, Permission::ReadOnly)),
        fd("wo", FieldType::Int(IntType::U64, Permission::WriteOnly)),
        fd("rw", FieldType::Int(IntType::U64, Permission::ReadWrite)),
        fd("default", FieldType::scalar(IntType::U64)),
    ])
}

#[test]
fn permissions_decide_which_handles_exist() {
    let layout = permissions_layout();
    let mut region = Region::zeroed(layout.map(0).size);
    let ptr = MapPtr::from_region(&layout, 0, &region).unwrap();
    let ro = ptr.field_named("ro").unwrap();
    let wo = ptr.field_named("wo").unwrap();
    let rw = ptr.field_named("rw").unwrap();
    let default = ptr.field_named("default").unwrap();

    assert!(ro.reg::<u64, WriteOnly>().is_none());
    assert!(ro.reg::<u64, ReadWrite>().is_none());
    assert!(wo.reg::<u64, ReadOnly>().is_none());
    assert!(wo.reg::<u64, ReadWrite>().is_none());
    assert!(rw.reg::<u64, ReadOnly>().is_none());
    assert!(rw.reg::<u32, ReadWrite>().is_none());

    wo.reg::<u64, WriteOnly>().unwrap().write(&mut region, 7);
    assert_eq!(ro.reg::<u64, ReadOnly>().unwrap().read(&region), 0);
    let d = default.reg::<u64, ReadWrite>().unwrap();
    d.write(&mut region, 9);
    assert_eq!(d.read(&region), 9);
    assert_eq!(region.as_bytes()[8], 7);
}

fn u16_array(n: usize) -> Layout {
    one_map(vec![fd("a", FieldType::array(FieldType::scalar(IntType::U16), n))])
}

fn the_array<'a>(ptr: &MapPtr<'a>) -> RegArray<'a> {
    ptr.field(0).unwrap().array().unwrap()
}

fn u16_reg(h: Handle) -> Reg<u16, ReadWrite> {
    h.reg::<u16, ReadWrite>().unwrap()
}

#[test]
fn array_index_write_read_leaves_others() {
    let n = 9;
    let layout = u16_array(n);
    let mut region = Region::zeroed(layout.map(0).size);
    let ptr = MapPtr::from_region(&layout, 0, &region).unwrap();
    let a = the_array(&ptr);
    for i in 0..n {
        let before: Vec<u16> = (0..n).map(|j| u16_reg(a.idx(j).unwrap()).read(&region)).collect();
        u16_reg(a.idx(i).unwrap()).write(&mut region, i as u16);
        assert_eq!(u16_reg(a.idx(i).unwrap()).read(&region), i as u16);
        for j in 0..n {
            if j != i {
                assert_eq!(u16_reg(a.idx(j).unwrap()).read(&region), before[j]);
            }
        }
    }
    assert_eq!(a.idx(3).unwrap().reg::<u16, ReadWrite>().unwrap().as_ptr(), 6);
    assert_eq!(a.idx_unchecked(4).reg::<u16, ReadWrite>().unwrap().as_ptr(), 8);
}

#[test]
fn out_of_bounds_index_and_slice() {
    let n = 5;
    let layout = u16_array(n);
    let region = Region::zeroed(layout.map(0).size);
    let ptr = MapPtr::from_region(&layout, 0, &region).unwrap();
    let a = the_array(&ptr);
    assert_eq!(a.idx(n).err(), Some(BoundsError {}));
    assert!(a.idx(n - 1).is_ok());
    assert_eq!(a.iter_slice(0, n + 1).err(), Some(BoundsError {}));
    assert_eq!(a.iter_slice(3, 2).err(), Some(BoundsError {}));
    let mut empty = a.iter_slice(2, 2).unwrap();
    assert_eq!(empty.len(), 0);
    assert!(empty.next().is_none());
    assert!(empty.next_back().is_none());
    assert!(a.iter_slice(0, n).is_ok());
}

fn addr(h: Option<Handle>) -> Option<usize> {
    h.map(|h| u16_reg(h).as_ptr())
}

#[test]
fn iterators_walk_both_ways_and_stay_exhausted() {
    let n = 6;
    let layout = u16_array(n);
    let region = Region::zeroed(layout.map(0).size);
    let ptr = MapPtr::from_region(&layout, 0, &region).unwrap();
    let a = the_array(&ptr);

    let mut it = a.iter();
    assert_eq!(it.size_hint(), (n, Some(n)));
    for i in 0..n {
        assert_eq!(it.len(), n - i);
        assert_eq!(addr(it.next()), Some(2 * i));
    }
    for _ in 0..3 {
        assert!(it.next().is_none());
        assert!(it.next_back().is_none());
    }

    let mut back = a.iter();
    for i in (0..n).rev() {
        assert_eq!(addr(back.next_back()), Some(2 * i));
    }
    assert!(back.next_back().is_none());
    assert!(back.next().is_none());

    let mut both = a.iter();
    assert_eq!(addr(both.next()), Some(0));
    assert_eq!(addr(both.next_back()), Some(10));
    assert_eq!(both.count(), n - 2);
    assert_eq!(addr(a.iter().last()), Some(10));
}

#[test]
fn cloned_iterator_is_independent() {
    let n = 4;
    let layout = u16_array(n);
    let region = Region::zeroed(layout.map(0).size);
    let ptr = MapPtr::from_region(&layout, 0, &region).unwrap();
    let a = the_array(&ptr);
    let mut it = a.iter();
    it.next();
    let mut copy = it.clone();
    assert_eq!(addr(copy.next()), Some(2));
    assert_eq!(addr(copy.next()), Some(4));
    assert_eq!(addr(it.next()), Some(2));
    assert_eq!(it.len(), 2);
    assert_eq!(copy.len(), 1);
}

#[test]
fn nth_skips_and_clamps() {
    let n = 8;
    let layout = u16_array(n);
    let region = Region::zeroed(layout.map(0).size);
    let ptr = MapPtr::from_region(&layout, 0, &region).unwrap();
    let a = the_array(&ptr);
    let mut it = a.iter();
    assert_eq!(addr(it.nth(2)), Some(4));
    assert_eq!(addr(it.nth_back(1)), Some(12));
    assert_eq!(it.len(), 3);
    assert!(it.nth(3).is_none());
    assert_eq!(it.len(), 0);
    assert!(it.next().is_none());
    let mut it = a.iter();
    assert!(it.nth_back(8).is_none());
    assert!(it.next().is_none());
}

#[test]
fn nested_write_touches_only_its_bytes() {
    let layout = resolve(&vec![
        c_map("Inner", vec![fd("inner1", FieldType::scalar(IntType::U64))]),
        c_map(
            "Outer",
            vec![fd("outer", FieldType::scalar(IntType::U64)), fd("inner", FieldType::Nested(0))],
        ),
    ])
    .unwrap();
    let mut region = Region::from_bytes(vec![0x11u8; 16]);
    let ptr = MapPtr::from_region(&layout, 1, &region).unwrap();
    let inner1 = ptr
        .field_named("inner")
        .unwrap()
        .nested()
        .unwrap()
        .field_named("inner1")
        .unwrap()
        .reg::<u64, ReadWrite>()
        .unwrap();
    inner1.write(&mut region, 0x0807_0605_0403_0201);
    assert_eq!(&region.as_bytes()[0..8], &[0x11u8; 8]);
    assert_eq!(&region.as_bytes()[8..16], &[1, 2, 3, 4, 5, 6, 7, 8]);
    let again = ptr
        .field_named("inner")
        .unwrap()
        .nested()
        .unwrap()
        .field_named("inner1")
        .unwrap()
        .reg::<u64, ReadWrite>()
        .unwrap();
    assert_eq!(again.read(&region), 0x0807_0605_0403_0201);
    assert!(ptr.field_named("missing").is_none());
    assert!(ptr.field(2).is_none());
}

#[test]
fn four_dimensional_unique_values() {
    let dims = [2usize, 3, 4, 5];
    let ty = FieldType::array(
        FieldType::array(
            FieldType::array(FieldType::array(FieldType::scalar(IntType::U32), dims[3]), dims[2]),
            dims[1],
        ),
        dims[0],
    );
    let layout = one_map(vec![fd("grid", ty)]);
    assert_eq!(layout.map(0).size, 4 * 2 * 3 * 4 * 5);
    let mut region = Region::zeroed(layout.map(0).size);
    let ptr = MapPtr::from_region(&layout, 0, &region).unwrap();
    let cell = |c: [usize; 4]| -> Reg<u32, ReadWrite> {
        let a = ptr.field(0).unwrap().array().unwrap();
        let b = a.idx(c[0]).unwrap().array().unwrap();
        let d = b.idx(c[1]).unwrap().array().unwrap();
        let e = d.idx(c[2]).unwrap().array().unwrap();
        e.idx(c[3]).unwrap().reg::<u32, ReadWrite>().unwrap()
    };
    let value = |c: [usize; 4]| (1000 * c[0] + 100 * c[1] + 10 * c[2] + c[3]) as u32;
    let mut all = Vec::new();
    for i in 0..dims[0] {
        for j in 0..dims[1] {
            for k in 0..dims[2] {
                for m in 0..dims[3] {
                    all.push([i, j, k, m]);
                }
            }
        }
    }
    for &c in &all {
        cell(c).write(&mut region, value(c));
    }
    for &c in &all {
        assert_eq!(cell(c).read(&region), value(c));
    }
    assert_eq!(cell([1, 2, 3, 4]).as_ptr(), 4 * (((1 * 3 + 2) * 4 + 3) * 5 + 4));
}

#[test]
fn roots_check_their_bounds() {
    let layout = u16_array(4);
    assert!(MapPtr::new(&layout, 1, 0).is_none());
    assert!(MapPtr::new(&layout, 0, usize::MAX - 7).is_none());
    let p = MapPtr::new(&layout, 0, usize::MAX - 8).unwrap();
    assert_eq!(p.as_ptr(), usize::MAX - 8);
    assert_eq!(p.size_of(), 8);
    assert_eq!(p.field_count(), 1);
    let small = Region::zeroed(7);
    assert!(MapPtr::from_region(&layout, 0, &small).is_none());
    let exact = Region::zeroed(8);
    assert!(MapPtr::from_region(&layout, 0, &exact).is_some());
    assert_eq!(layout.len(), 1);
}

#[test]
fn array_handle_reports_geometry() {
    let layout = u16_array(7);
    let region = Region::zeroed(layout.map(0).size);
    let ptr = MapPtr::new(&layout, 0, 32).unwrap();
    let a = the_array(&ptr);
    assert_eq!(a.len(), 7);
    assert_eq!(a.elem_size(), 2);
    assert_eq!(a.as_ptr(), 32);
    let h = a.idx(1).unwrap();
    match h {
        Handle::Scalar(s) => {
            assert_eq!(s.as_ptr(), 34);
            assert_eq!(s.get_int_type(), IntType::U16);
            assert_eq!(s.get_permission(), Permission::ReadWrite);
        },
        _ => panic!("expected a scalar"),
    }
    assert!(h.nested().is_none());
    assert!(h.array().is_none());
    assert_eq!(region.len(), 14);
}

#[test]
fn int_type_facts() {
    assert_eq!(IntType::U128.width(), 16);
    assert_eq!(IntType::I8.width(), 1);
    assert!(IntType::I32.is_signed());
    assert!(!IntType::U32.is_signed());
    assert!(!IntType::Usize.is_register());
    assert!(IntType::U16.is_register());
    assert_eq!((-1i16).to_bits(), 0xffff);
    assert_eq!(i16::from_bits(0xfffe), -2);
    assert!(Permission::ReadOnly.can_read());
    assert!(!Permission::ReadOnly.can_write());
    assert!(!Permission::WriteOnly.can_read());
    assert!(Permission::ReadWrite.can_write());
}

#[test]
fn registers_are_equal_by_address() {
    let layout = u16_array(3);
    let region = Region::zeroed(layout.map(0).size);
    let ptr = MapPtr::from_region(&layout, 0, &region).unwrap();
    let a = the_array(&ptr);
    let first = u16_reg(a.idx(1).unwrap());
    let mut it = a.iter();
    it.next();
    let second = u16_reg(it.next().unwrap());
    assert!(first == second);
    assert!(first != u16_reg(a.idx(2).unwrap()));
}
