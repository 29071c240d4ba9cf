//! Fixed-width values of the execution layer, held as integers.

use vstd::prelude::*;

verus! {

/// A key of an [`crate::assoc::AssocList`]: a plain value with an executable equality test.
pub trait Key: Sized + Copy {
    /// Whether the two keys are the same value.
    fn same(&self, other: &Self) -> (r: bool)
        ensures
            r == (*self == *other),
    ;
}

/// A 160-bit account address: the top 32 bits and the low 128 bits of its
/// big-endian reading.
#[derive(Clone, Copy, Debug, PartialEq, Eq, Structural, Hash)]
pub struct Address {
    pub hi: u32,
    pub lo: u128,
}

/// A 256-bit word (a balance, a storage slot or a storage value): the high
/// and the low 128 bits of its big-endian reading.
#[derive(Clone, Copy, Debug, PartialEq, Eq, Structural, Hash)]
pub struct Word {
    pub hi: u128,
    pub lo: u128,
}

impl Address {
    /// The address with the given halves.
    pub fn new(hi: u32, lo: u128) -> (r: Self)
        ensures
            r == (Address { hi, lo }),
    {
        Address { hi, lo }
    }
}

impl Word {
    /// The word with the given halves.
    pub fn new(hi: u128, lo: u128) -> (r: Self)
        ensures
            r == (Word { hi, lo }),
    {
        Word { hi, lo }
    }

    /// The word whose value is `value`.
    pub fn from_u128(value: u128) -> (r: Self)
        ensures
            r == (Word { hi: 0, lo: value }),
    {
        Word { hi: 0, lo: value }
    }
}

impl Key for Address {
    fn same(&self, other: &Self) -> (r: bool) {
        self.hi == other.hi && self.lo == other.lo
    }
}

impl Key for Word {
    fn same(&self, other: &Self) -> (r: bool) {
        self.hi == other.hi && self.lo == other.lo
    }
}

} // verus!
