//! Read/write permissions of registers.
use vstd::prelude::*;

use crate::sealed::Sealed;

verus! {

/// The access permission of a register field, as written in a layout description.
#[derive(Clone, Copy, Debug, PartialEq, Eq, Structural)]
pub enum Permission {
    ReadOnly,
    WriteOnly,
    ReadWrite,
}

impl Permission {
    /// Whether a register with this permission may be read.
    pub open spec fn spec_can_read(self) -> bool {
        self != Permission::WriteOnly
    }

    /// Whether a register with this permission may be written.
    pub open spec fn spec_can_write(self) -> bool {
        self != Permission::ReadOnly
    }

    pub fn can_read(&self) -> (r: bool)
        ensures
            r == self.spec_can_read(),
    {
        !matches!(self, Permission::WriteOnly)
    }

    pub fn can_write(&self) -> (r: bool)
        ensures
            r == self.spec_can_write(),
    {
        !matches!(self, Permission::ReadOnly)
    }
}

/// A tag type marking a register that can only be read.
#[derive(Clone, Copy, Debug, Default, PartialEq, Eq, Structural)]
pub struct ReadOnly {}

/// A tag type marking a register that can only be written.
#[derive(Clone, Copy, Debug, Default, PartialEq, Eq, Structural)]
pub struct WriteOnly {}

/// A tag type marking a register that can be both read and written.
#[derive(Clone, Copy, Debug, Default, PartialEq, Eq, Structural)]
pub struct ReadWrite {}

/// A permission tag type. The set of tags is closed: only [`ReadOnly`], [`WriteOnly`] and
/// [`ReadWrite`] implement it.
pub trait Access: Copy + Sealed {
    /// The permission that the tag stands for.
    spec fn permission() -> Permission;

    fn get_permission() -> (r: Permission)
        ensures
            r == Self::permission(),
    ;
}

/// Tags that allow reading: [`ReadOnly`] and [`ReadWrite`].
pub trait Readable: Access {
    proof fn lemma_readable()
        ensures
            Self::permission().spec_can_read(),
    ;
}

/// Tags that allow writing: [`WriteOnly`] and [`ReadWrite`].
pub trait Writable: Access {
    proof fn lemma_writable()
        ensures
            Self::permission().spec_can_write(),
    ;
}

impl Sealed for ReadOnly {}

impl Sealed for WriteOnly {}

impl Sealed for ReadWrite {}

impl Access for ReadOnly {
    open spec fn permission() -> Permission {
        Permission::ReadOnly
    }

    fn get_permission() -> (r: Permission) {
        Permission::ReadOnly
    }
}

impl Access for WriteOnly {
    open spec fn permission() -> Permission {
        Permission::WriteOnly
    }

    fn get_permission() -> (r: Permission) {
        Permission::WriteOnly
    }
}

impl Access for ReadWrite {
    open spec fn permission() -> Permission {
        Permission::ReadWrite
    }

    fn get_permission() -> (r: Permission) {
        Permission::ReadWrite
    }
}

impl Readable for ReadOnly {
    proof fn lemma_readable() {
    }
}

impl Readable for ReadWrite {
    proof fn lemma_readable() {
    }
}

impl Writable for WriteOnly {
    proof fn lemma_writable() {
    }
}

impl Writable for ReadWrite {
    proof fn lemma_writable() {
    }
}

} // verus!
