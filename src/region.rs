//! A byte-addressed register region, and little-endian loads and stores on it.
use vstd::prelude::*;
use vstd::arithmetic::div_mod::{lemma_div_denominator, lemma_fundamental_div_mod};

use crate::integers::{lemma_pow256_values, pow256};

verus! {

/// Byte `j` (counted from the least significant) of `v`.
pub open spec fn byte_of(v: nat, j: nat) -> u8 {
    ((v / pow256(j)) % 256) as u8
}

/// The number that the bytes `s` hold, least significant byte first.
pub open spec fn le_value(s: Seq<u8>) -> nat
    decreases s.len(),
{
    if s.len() == 0 {
        0
    } else {
        s[0] as nat + 256 * le_value(s.drop_first())
    }
}

/// What a load of `w` bytes at `addr` returns from the memory contents `m`.
pub open spec fn loaded(m: Seq<u8>, addr: int, w: nat) -> nat {
    le_value(m.subrange(addr, addr + w))
}

/// The memory contents after a store of the `w` low bytes of `v` at `addr`: those bytes change,
/// no other does.
pub open spec fn stored(m: Seq<u8>, addr: int, w: nat, v: nat) -> Seq<u8> {
    Seq::new(
        m.len(),
        |j: int|
            if addr <= j < addr + w {
                byte_of(v, (j - addr) as nat)
            } else {
                m[j]
            },
    )
}

/// Whether the byte ranges `[a, a + wa)` and `[b, b + wb)` are disjoint.
pub open spec fn disjoint(a: int, wa: nat, b: int, wb: nat) -> bool {
    a + wa <= b || b + wb <= a
}

pub proof fn lemma_pow256_positive(n: nat)
    ensures
        pow256(n) > 0,
    decreases n,
{
    if n > 0 {
        lemma_pow256_positive((n - 1) as nat);
    }
}

pub proof fn lemma_pow256_monotonic(a: nat, b: nat)
    requires
        a <= b,
    ensures
        pow256(a) <= pow256(b),
    decreases b,
{
    if a < b {
        lemma_pow256_monotonic(a, (b - 1) as nat);
    }
}

/// Bytes that are the little-endian bytes of `v` hold `v` again.
proof fn lemma_le_value_of_bytes(s: Seq<u8>, v: nat)
    requires
        v < pow256(s.len()),
        forall|j: int| 0 <= j < s.len() ==> s[j] == byte_of(v, j as nat),
    ensures
        le_value(s) == v,
    decreases s.len(),
{
    assert(pow256(0) == 1);
    if s.len() > 0 {
        let rest = s.drop_first();
        let p = pow256((s.len() - 1) as nat);
        lemma_pow256_positive((s.len() - 1) as nat);
        assert forall|j: int| 0 <= j < rest.len() implies rest[j] == byte_of(v / 256, j as nat) by {
            lemma_pow256_positive(j as nat);
            lemma_div_denominator(v as int, 256, pow256(j as nat) as int);
            assert(pow256((j + 1) as nat) == 256 * pow256(j as nat));
            assert(s[j + 1] == byte_of(v, (j + 1) as nat));
        }
        assert(v / 256 < p) by (nonlinear_arith)
            requires
                v < 256 * p,
                p > 0,
        ;
        lemma_le_value_of_bytes(rest, v / 256);
        assert(s[0] == byte_of(v, 0));
        assert(pow256(0) == 1);
        lemma_fundamental_div_mod(v as int, 256);
    }
}

/// A load returns what a store of the same width at the same address put there.
pub proof fn lemma_load_stored(m: Seq<u8>, addr: int, w: nat, v: nat)
    requires
        0 <= addr,
        addr + w <= m.len(),
        v < pow256(w),
    ensures
        loaded(stored(m, addr, w, v), addr, w) == v,
{
    let s = stored(m, addr, w, v).subrange(addr, addr + w);
    assert forall|j: int| 0 <= j < s.len() implies s[j] == byte_of(v, j as nat) by {}
    lemma_le_value_of_bytes(s, v);
}

/// A store leaves a load from a disjoint range unchanged.
pub proof fn lemma_load_stored_disjoint(m: Seq<u8>, addr: int, w: nat, v: nat, b: int, wb: nat)
    requires
        0 <= addr,
        addr + w <= m.len(),
        0 <= b,
        b + wb <= m.len(),
        disjoint(addr, w, b, wb),
    ensures
        loaded(stored(m, addr, w, v), b, wb) == loaded(m, b, wb),
{
    assert(stored(m, addr, w, v).subrange(b, b + wb) =~= m.subrange(b, b + wb));
}

/// A region of memory holding registers, addressed by byte from `0`.
///
/// All register accesses go through [`Region::load`] and [`Region::store`], each of which reads
/// or writes exactly the bytes of one register.
pub struct Region {
    bytes: Vec<u8>,
}

impl View for Region {
    type V = Seq<u8>;

    closed spec fn view(&self) -> Seq<u8> {
        self.bytes@
    }
}

impl Region {
    /// A region of `len` bytes, all zero.
    pub fn zeroed(len: usize) -> (r: Region)
        ensures
            r@ == Seq::new(len as nat, |_j: int| 0u8),
    {
        let mut bytes: Vec<u8> = Vec::new();
        while bytes.len() < len
            invariant
                bytes.len() <= len,
                forall|j: int| 0 <= j < bytes.len() ==> bytes@[j] == 0u8,
            decreases len - bytes.len(),
        {
            bytes.push(0u8);
        }
        let r = Region { bytes };
        assert(r@ =~= Seq::new(len as nat, |_j: int| 0u8));
        r
    }

    /// A region holding the given bytes.
    pub fn from_bytes(bytes: Vec<u8>) -> (r: Region)
        ensures
            r@ == bytes@,
    {
        Region { bytes }
    }

    /// The number of bytes in the region.
    pub fn len(&self) -> (r: usize)
        ensures
            r == self@.len(),
    {
        self.bytes.len()
    }

    /// The bytes of the region.
    pub fn as_bytes(&self) -> (r: &[u8])
        ensures
            r@ == self@,
    {
        self.bytes.as_slice()
    }

    /// Reads the `width` bytes at `addr` as a little-endian number.
    pub fn load(&self, addr: usize, width: usize) -> (r: u128)
        requires
            width <= 16,
            addr + width <= self@.len(),
        ensures
            r as nat == loaded(self@, addr as int, width as nat),
            (r as nat) < pow256(width as nat),
    {
        let ghost m = self@;
        let n = self.bytes.len();
        let mut acc: u128 = 0;
        let mut k: usize = width;
        proof {
            assert(m.subrange(addr + width, addr + width) =~= Seq::<u8>::empty());
        }
        while k > 0
            invariant
                m == self@,
                n == m.len(),
                k <= width <= 16,
                addr + width <= m.len(),
                acc as nat == le_value(m.subrange(addr + k, addr + width)),
                (acc as nat) < pow256((width - k) as nat),
            decreases k,
        {
            let b = self.bytes[addr + k - 1];
            proof {
                let s = m.subrange(addr + k - 1, addr + width);
                assert(s.drop_first() =~= m.subrange(addr + k, addr + width));
                assert(s[0] == b);
                let p = pow256((width - k) as nat);
                assert(pow256((width - k + 1) as nat) == 256 * p);
                assert(acc * 256 + b < 256 * p) by (nonlinear_arith)
                    requires
                        acc < p,
                        b < 256,
                ;
                lemma_pow256_monotonic((width - k + 1) as nat, 16);
                lemma_pow256_values();
            }
            acc = acc * 256 + b as u128;
            k = k - 1;
        }
        proof {
            assert(m.subrange(addr as int, addr + width) == m.subrange(addr + k, addr + width));
        }
        acc
    }

    /// Writes the `width` low bytes of `bits` at `addr`, least significant byte first. No other
    /// byte changes.
    pub fn store(&mut self, addr: usize, width: usize, bits: u128)
        requires
            addr + width <= old(self)@.len(),
        ensures
            final(self)@ == stored(old(self)@, addr as int, width as nat, bits as nat),
    {
        let ghost m = self@;
        let n = self.bytes.len();
        let mut x: u128 = bits;
        assert(pow256(0) == 1);
        let mut k: usize = 0;
        while k < width
            invariant
                k <= width,
                addr + width <= m.len(),
                n == m.len(),
                self@.len() == m.len(),
                x as nat == bits as nat / pow256(k as nat),
                forall|j: int|
                    0 <= j < m.len() ==> self@[j] == (if addr <= j < addr + k {
                        byte_of(bits as nat, (j - addr) as nat)
                    } else {
                        m[j]
                    }),
            decreases width - k,
        {
            proof {
                lemma_pow256_positive(k as nat);
                lemma_div_denominator(bits as int, pow256(k as nat) as int, 256);
                assert(pow256((k + 1) as nat) == 256 * pow256(k as nat));
            }
            self.bytes.set(addr + k, (x % 256) as u8);
            x = x / 256;
            k = k + 1;
        }
        assert(self@ =~= stored(m, addr as int, width as nat, bits as nat));
    }
}

} // verus!
