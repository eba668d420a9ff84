//! Values and value types that the bytecode and the module share.

use vstd::prelude::*;

verus! {

/// Type of a value, a table element or an element segment item.
#[derive(Clone, Copy, Debug, PartialEq, Eq, Structural)]
pub enum ValueType {
    I32,
    I64,
    F32,
    F64,
    FuncRef,
    ExternRef,
}

/// A value of any type, held by its bits.
#[derive(Clone, Copy, Debug, PartialEq, Eq, Structural)]
pub struct UntypedValue {
    pub bits: u64,
}

impl UntypedValue {
    /// The value that holds a 32-bit number.
    pub open spec fn of_u32(value: u32) -> UntypedValue {
        UntypedValue { bits: value as u64 }
    }

    /// The value that holds a 64-bit number.
    pub open spec fn of_u64(value: u64) -> UntypedValue {
        UntypedValue { bits: value }
    }

    pub fn from_u32(value: u32) -> (v: UntypedValue)
        ensures
            v == Self::of_u32(value),
    {
        UntypedValue { bits: value as u64 }
    }

    pub fn from_u64(value: u64) -> (v: UntypedValue)
        ensures
            v == Self::of_u64(value),
    {
        UntypedValue { bits: value }
    }

    /// The bits of the value.
    pub fn to_bits(self) -> (bits: u64)
        ensures
            bits == self.bits,
    {
        self.bits
    }
}

} // verus!
