//! Integer types that registers can hold, and their two's-complement bit patterns.
use vstd::prelude::*;

use crate::sealed::Sealed;

verus! {

/// `256` raised to `n`: the number of distinct values of `n` bytes.
pub open spec fn pow256(n: nat) -> nat
    decreases n,
{
    if n == 0 {
        1
    } else {
        256 * pow256((n - 1) as nat)
    }
}

pub proof fn lemma_pow256_values()
    ensures
        pow256(1) == 0x100,
        pow256(2) == 0x1_0000,
        pow256(4) == 0x1_0000_0000,
        pow256(8) == 0x1_0000_0000_0000_0000,
        pow256(16) == 0x1_0000_0000_0000_0000_0000_0000_0000_0000,
{
    reveal_with_fuel(pow256, 17);
}

/// The integer type of a scalar field in a layout description.
///
/// `Usize` and `Isize` can be written in a description, but are not register types: their width
/// depends on the platform, and the layout resolver rejects them.
#[derive(Clone, Copy, Debug, PartialEq, Eq, Structural)]
pub enum IntType {
    U8,
    U16,
    U32,
    U64,
    U128,
    I8,
    I16,
    I32,
    I64,
    I128,
    Usize,
    Isize,
}

impl IntType {
    /// Whether the type can be placed in a register.
    pub open spec fn spec_is_register(self) -> bool {
        self != IntType::Usize && self != IntType::Isize
    }

    /// Width in bytes of a register type (which is also its alignment).
    pub open spec fn spec_width(self) -> nat {
        match self {
            IntType::U8 | IntType::I8 => 1,
            IntType::U16 | IntType::I16 => 2,
            IntType::U32 | IntType::I32 => 4,
            IntType::U64 | IntType::I64 => 8,
            IntType::U128 | IntType::I128 => 16,
            IntType::Usize | IntType::Isize => 0,
        }
    }

    pub open spec fn spec_is_signed(self) -> bool {
        match self {
            IntType::I8 | IntType::I16 | IntType::I32 | IntType::I64 | IntType::I128
            | IntType::Isize => true,
            _ => false,
        }
    }

    pub fn is_register(&self) -> (r: bool)
        ensures
            r == self.spec_is_register(),
    {
        !matches!(self, IntType::Usize | IntType::Isize)
    }

    pub fn width(&self) -> (r: usize)
        ensures
            r == self.spec_width(),
    {
        match self {
            IntType::U8 | IntType::I8 => 1,
            IntType::U16 | IntType::I16 => 2,
            IntType::U32 | IntType::I32 => 4,
            IntType::U64 | IntType::I64 => 8,
            IntType::U128 | IntType::I128 => 16,
            IntType::Usize | IntType::Isize => 0,
        }
    }

    pub fn is_signed(&self) -> (r: bool)
        ensures
            r == self.spec_is_signed(),
    {
        matches!(
            self,
            IntType::I8 | IntType::I16 | IntType::I32 | IntType::I64 | IntType::I128
                | IntType::Isize
        )
    }
}

/// Integer types that a register can hold: the primitive integers but `usize` and `isize`.
/// The set is closed.
///
/// A value is stored as its bit pattern (two's complement for signed types), a natural number
/// below `256` to the power of the width.
pub trait Integer: Copy + Sealed {
    spec fn int_type() -> IntType;

    /// The bit pattern of the value.
    spec fn spec_to_bits(self) -> nat;

    /// The value with bit pattern `b` (taken modulo the width).
    spec fn spec_from_bits(b: nat) -> Self;

    fn get_int_type() -> (r: IntType)
        ensures
            r == Self::int_type(),
    ;

    fn to_bits(self) -> (r: u128)
        ensures
            r as nat == self.spec_to_bits(),
    ;

    fn from_bits(b: u128) -> (r: Self)
        ensures
            r == Self::spec_from_bits(b as nat),
    ;

    /// The type is a register type.
    proof fn lemma_is_register()
        ensures
            Self::int_type().spec_is_register(),
    ;

    /// The bit patterns fit the width, and reading a pattern back gives the value it came from.
    proof fn lemma_bits(self)
        ensures
            Self::int_type().spec_is_register(),
            self.spec_to_bits() < pow256(Self::int_type().spec_width()),
            Self::spec_from_bits(self.spec_to_bits()) == self,
    ;
}

impl Sealed for u8 {}

impl Sealed for u16 {}

impl Sealed for u32 {}

impl Sealed for u64 {}

impl Sealed for u128 {}

impl Sealed for i8 {}

impl Sealed for i16 {}

impl Sealed for i32 {}

impl Sealed for i64 {}

impl Sealed for i128 {}

impl Integer for u8 {
    open spec fn int_type() -> IntType {
        IntType::U8
    }

    open spec fn spec_to_bits(self) -> nat {
        self as nat
    }

    open spec fn spec_from_bits(b: nat) -> Self {
        b as u8
    }

    fn get_int_type() -> (r: IntType) {
        IntType::U8
    }

    fn to_bits(self) -> (r: u128) {
        self as u128
    }

    fn from_bits(b: u128) -> (r: Self) {
        b as u8
    }

    proof fn lemma_is_register() {
    }

    proof fn lemma_bits(self) {
        lemma_pow256_values();
    }
}

impl Integer for i8 {
    open spec fn int_type() -> IntType {
        IntType::I8
    }

    open spec fn spec_to_bits(self) -> nat {
        (self as u8) as nat
    }

    open spec fn spec_from_bits(b: nat) -> Self {
        (b as u8) as i8
    }

    fn get_int_type() -> (r: IntType) {
        IntType::I8
    }

    fn to_bits(self) -> (r: u128) {
        (self as u8) as u128
    }

    fn from_bits(b: u128) -> (r: Self) {
        (b as u8) as i8
    }

    proof fn lemma_is_register() {
    }

    proof fn lemma_bits(self) {
        lemma_pow256_values();
        let v = self;
        assert(((v as u8) as i8) == v) by (bit_vector);
    }
}

impl Integer for u16 {
    open spec fn int_type() -> IntType {
        IntType::U16
    }

    open spec fn spec_to_bits(self) -> nat {
        self as nat
    }

    open spec fn spec_from_bits(b: nat) -> Self {
        b as u16
    }

    fn get_int_type() -> (r: IntType) {
        IntType::U16
    }

    fn to_bits(self) -> (r: u128) {
        self as u128
    }

    fn from_bits(b: u128) -> (r: Self) {
        b as u16
    }

    proof fn lemma_is_register() {
    }

    proof fn lemma_bits(self) {
        lemma_pow256_values();
    }
}

impl Integer for i16 {
    open spec fn int_type() -> IntType {
        IntType::I16
    }

    open spec fn spec_to_bits(self) -> nat {
        (self as u16) as nat
    }

    open spec fn spec_from_bits(b: nat) -> Self {
        (b as u16) as i16
    }

    fn get_int_type() -> (r: IntType) {
        IntType::I16
    }

    fn to_bits(self) -> (r: u128) {
        (self as u16) as u128
    }

    fn from_bits(b: u128) -> (r: Self) {
        (b as u16) as i16
    }

    proof fn lemma_is_register() {
    }

    proof fn lemma_bits(self) {
        lemma_pow256_values();
        let v = self;
        assert(((v as u16) as i16) == v) by (bit_vector);
    }
}

impl Integer for u32 {
    open spec fn int_type() -> IntType {
        IntType::U32
    }

    open spec fn spec_to_bits(self) -> nat {
        self as nat
    }

    open spec fn spec_from_bits(b: nat) -> Self {
        b as u32
    }

    fn get_int_type() -> (r: IntType) {
        IntType::U32
    }

    fn to_bits(self) -> (r: u128) {
        self as u128
    }

    fn from_bits(b: u128) -> (r: Self) {
        b as u32
    }

    proof fn lemma_is_register() {
    }

    proof fn lemma_bits(self) {
        lemma_pow256_values();
    }
}

impl Integer for i32 {
    open spec fn int_type() -> IntType {
        IntType::I32
    }

    open spec fn spec_to_bits(self) -> nat {
        (self as u32) as nat
    }

    open spec fn spec_from_bits(b: nat) -> Self {
        (b as u32) as i32
    }

    fn get_int_type() -> (r: IntType) {
        IntType::I32
    }

    fn to_bits(self) -> (r: u128) {
        (self as u32) as u128
    }

    fn from_bits(b: u128) -> (r: Self) {
        (b as u32) as i32
    }

    proof fn lemma_is_register() {
    }

    proof fn lemma_bits(self) {
        lemma_pow256_values();
        let v = self;
        assert(((v as u32) as i32) == v) by (bit_vector);
    }
}

impl Integer for u64 {
    open spec fn int_type() -> IntType {
        IntType::U64
    }

    open spec fn spec_to_bits(self) -> nat {
        self as nat
    }

    open spec fn spec_from_bits(b: nat) -> Self {
        b as u64
    }

    fn get_int_type() -> (r: IntType) {
        IntType::U64
    }

    fn to_bits(self) -> (r: u128) {
        self as u128
    }

    fn from_bits(b: u128) -> (r: Self) {
        b as u64
    }

    proof fn lemma_is_register() {
    }

    proof fn lemma_bits(self) {
        lemma_pow256_values();
    }
}

impl Integer for i64 {
    open spec fn int_type() -> IntType {
        IntType::I64
    }

    open spec fn spec_to_bits(self) -> nat {
        (self as u64) as nat
    }

    open spec fn spec_from_bits(b: nat) -> Self {
        (b as u64) as i64
    }

    fn get_int_type() -> (r: IntType) {
        IntType::I64
    }

    fn to_bits(self) -> (r: u128) {
        (self as u64) as u128
    }

    fn from_bits(b: u128) -> (r: Self) {
        (b as u64) as i64
    }

    proof fn lemma_is_register() {
    }

    proof fn lemma_bits(self) {
        lemma_pow256_values();
        let v = self;
        assert(((v as u64) as i64) == v) by (bit_vector);
    }
}

impl Integer for u128 {
    open spec fn int_type() -> IntType {
        IntType::U128
    }

    open spec fn spec_to_bits(self) -> nat {
        self as nat
    }

    open spec fn spec_from_bits(b: nat) -> Self {
        b as u128
    }

    fn get_int_type() -> (r: IntType) {
        IntType::U128
    }

    fn to_bits(self) -> (r: u128) {
        self as u128
    }

    fn from_bits(b: u128) -> (r: Self) {
        b as u128
    }

    proof fn lemma_is_register() {
    }

    proof fn lemma_bits(self) {
        lemma_pow256_values();
    }
}

impl Integer for i128 {
    open spec fn int_type() -> IntType {
        IntType::I128
    }

    open spec fn spec_to_bits(self) -> nat {
        (self as u128) as nat
    }

    open spec fn spec_from_bits(b: nat) -> Self {
        (b as u128) as i128
    }

    fn get_int_type() -> (r: IntType) {
        IntType::I128
    }

    fn to_bits(self) -> (r: u128) {
        (self as u128) as u128
    }

    fn from_bits(b: u128) -> (r: Self) {
        (b as u128) as i128
    }

    proof fn lemma_is_register() {
    }

    proof fn lemma_bits(self) {
        lemma_pow256_values();
        let v = self;
        assert(((v as u128) as i128) == v) by (bit_vector);
    }
}

} // verus!
