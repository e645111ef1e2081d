//! Handles to single registers.
use core::marker::PhantomData;
use vstd::prelude::*;

use crate::access::{Access, Readable, Writable};
use crate::integers::Integer;
use crate::region::{
    disjoint, lemma_load_stored, lemma_load_stored_disjoint, loaded,
    stored, Region,
};

verus! {

/// A handle to one register of type `T` at a byte address, with the access permission `A`.
///
/// [`Reg::read`] exists only when `A` is [`Readable`](crate::access::Readable), and
/// [`Reg::write`] only when `A` is [`Writable`](crate::access::Writable). A handle is a plain
/// address: it owns nothing, and two handles to the same address are the same register.
pub struct Reg<T, A> {
    addr: usize,
    _marker: PhantomData<(T, A)>,
}

impl<T: Integer, A: Access> Clone for Reg<T, A> {
    fn clone(&self) -> (r: Self)
        ensures
            r == *self,
    {
        Reg { addr: self.addr, _marker: PhantomData }
    }
}

impl<T: Integer, A: Access> Copy for Reg<T, A> {}

/// Two handles are the same register when they have the same address.
impl<T: Integer, A: Access> PartialEq for Reg<T, A> {
    fn eq(&self, other: &Self) -> (r: bool)
        ensures
            r == (self.addr() == other.addr()),
    {
        self.addr == other.addr
    }
}

impl<T: Integer, A: Access> vstd::std_specs::cmp::PartialEqSpecImpl for Reg<T, A> {
    open spec fn obeys_eq_spec() -> bool {
        true
    }

    open spec fn eq_spec(&self, other: &Self) -> bool {
        self.addr() == other.addr()
    }
}

impl<T: Integer, A: Access> Eq for Reg<T, A> {}

impl<T: Integer, A: Access> Reg<T, A> {
    /// The byte address of the register.
    pub closed spec fn addr(self) -> nat {
        self.addr as nat
    }

    /// The width of the register in bytes.
    pub open spec fn width() -> nat {
        T::int_type().spec_width()
    }

    /// Whether the register lies inside memory of `len` bytes.
    pub open spec fn fits(self, len: nat) -> bool {
        self.addr() + Self::width() <= len
    }

    /// The value that a read returns from memory contents `m`.
    pub open spec fn spec_read(self, m: Seq<u8>) -> T {
        T::spec_from_bits(loaded(m, self.addr() as int, Self::width()))
    }

    /// The memory contents after writing `v` into `m`.
    pub open spec fn spec_write(self, m: Seq<u8>, v: T) -> Seq<u8> {
        stored(m, self.addr() as int, Self::width(), v.spec_to_bits())
    }

    /// A handle to the register at `addr`. Crate-internal: handles are handed out by the
    /// layout accessors, which check the register's type and permission.
    pub(crate) fn from_addr(addr: usize) -> (r: Self)
        ensures
            r.addr() == addr,
    {
        Reg { addr, _marker: PhantomData }
    }

    /// The byte address of the register.
    pub fn as_ptr(&self) -> (r: usize)
        ensures
            r == self.addr(),
    {
        self.addr
    }
}

impl<T: Integer, A: Readable> Reg<T, A> {
    /// Reads the register: one load of exactly its bytes.
    pub fn read(&self, region: &Region) -> (r: T)
        requires
            self.fits(region@.len()),
        ensures
            r == self.spec_read(region@),
    {
        proof {
            T::lemma_is_register();
        }
        let w = T::get_int_type().width();
        let bits = region.load(self.addr, w);
        T::from_bits(bits)
    }
}

impl<T: Integer, A: Writable> Reg<T, A> {
    /// Writes `val` to the register: one store of exactly its bytes.
    pub fn write(&self, region: &mut Region, val: T)
        requires
            self.fits(old(region)@.len()),
        ensures
            final(region)@ == self.spec_write(old(region)@, val),
    {
        let w = T::get_int_type().width();
        region.store(self.addr, w, val.to_bits());
    }
}

/// Writing a value to a register and reading the register back gives the value, for every
/// value of every register type.
pub proof fn lemma_write_read<T: Integer, A: Access>(reg: Reg<T, A>, m: Seq<u8>, v: T)
    requires
        reg.fits(m.len()),
    ensures
        reg.spec_read(reg.spec_write(m, v)) == v,
{
    v.lemma_bits();
    lemma_load_stored(m, reg.addr() as int, Reg::<T, A>::width(), v.spec_to_bits());
}

/// Writing a register changes no register whose bytes lie elsewhere.
pub proof fn lemma_write_other<T: Integer, A: Access, U: Integer, B: Access>(
    reg: Reg<T, A>,
    other: Reg<U, B>,
    m: Seq<u8>,
    v: T,
)
    requires
        reg.fits(m.len()),
        other.fits(m.len()),
        disjoint(reg.addr() as int, Reg::<T, A>::width(), other.addr() as int, Reg::<U, B>::width()),
    ensures
        other.spec_read(reg.spec_write(m, v)) == other.spec_read(m),
{
    lemma_load_stored_disjoint(
        m,
        reg.addr() as int,
        Reg::<T, A>::width(),
        v.spec_to_bits(),
        other.addr() as int,
        Reg::<U, B>::width(),
    );
}

} // verus!
