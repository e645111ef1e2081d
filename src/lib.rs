//! Volatile-style accessors to a register map described by a layout.
//!
//! A register map is described as an ordered list of named fields (scalar integers with an
//! access permission, nested register maps, and fixed-size arrays of either). The layout
//! resolver places the fields as a C compiler would (sequential placement, natural alignment),
//! and the accessors turn a base address into typed handles whose reads and writes go to a
//! byte-addressed register region.

mod sealed;

pub mod access;

pub mod integers;

pub mod region;

pub mod reg;
pub use reg::Reg;

pub mod layout;

pub mod handle;
pub use handle::{Handle, MapPtr, ScalarHandle};

pub mod arr;
pub use arr::{BoundsError, RegArray};

pub mod iter;
pub use iter::RegArrayIter;
