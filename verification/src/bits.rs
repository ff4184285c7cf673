//! Random-access bit sets used as accept filters during bulk scoring.

use vstd::prelude::*;

use crate::errors::IndexError;

verus! {

/// Random access to one bit per document.
pub trait Bits: Sized {
    /// The bit at position `i`; total, so a filter can be asked about any
    /// candidate the scorer produces.
    spec fn bit(&self, i: int) -> bool;

    /// The nominal size of the set.
    spec fn size(&self) -> int;

    /// Reads the bit at `index`.
    fn get(&self, index: usize) -> (r: Result<bool, IndexError>)
        ensures
            r == Ok::<bool, IndexError>(self.bit(index as int)),
    ;

    /// The nominal size of the set.
    fn len(&self) -> (r: usize)
        ensures
            r == self.size(),
    ;
}

/// Accepts every document.
pub struct MatchAllBits {
    size: usize,
}

impl MatchAllBits {
    /// An all-ones set of nominal size `len`.
    pub fn new(len: usize) -> (r: MatchAllBits)
        ensures
            r.size() == len,
            forall|i: int| r.bit(i),
    {
        MatchAllBits { size: len }
    }
}

impl Bits for MatchAllBits {
    closed spec fn bit(&self, i: int) -> bool {
        true
    }

    closed spec fn size(&self) -> int {
        self.size as int
    }

    fn get(&self, _index: usize) -> (r: Result<bool, IndexError>) {
        Ok(true)
    }

    fn len(&self) -> (r: usize) {
        self.size
    }
}

/// Accepts no document.
pub struct MatchNoBits {
    size: usize,
}

impl MatchNoBits {
    /// An all-zeroes set of nominal size `len`.
    pub fn new(len: usize) -> (r: MatchNoBits)
        ensures
            r.size() == len,
            forall|i: int| !r.bit(i),
    {
        MatchNoBits { size: len }
    }
}

impl Bits for MatchNoBits {
    closed spec fn bit(&self, i: int) -> bool {
        false
    }

    closed spec fn size(&self) -> int {
        self.size as int
    }

    fn get(&self, _index: usize) -> (r: Result<bool, IndexError>) {
        Ok(false)
    }

    fn len(&self) -> (r: usize) {
        self.size
    }
}

/// An explicit bit per position; positions beyond the end read as zero.
pub struct FixedBits {
    bits: Vec<bool>,
}

impl FixedBits {
    /// A set holding exactly the given bits.
    pub fn new(bits: Vec<bool>) -> (r: FixedBits)
        ensures
            r.size() == bits@.len(),
            forall|i: int| #[trigger] r.bit(i) == (0 <= i < bits@.len() && bits@[i]),
    {
        FixedBits { bits }
    }
}

impl Bits for FixedBits {
    closed spec fn bit(&self, i: int) -> bool {
        0 <= i < self.bits@.len() && self.bits@[i]
    }

    closed spec fn size(&self) -> int {
        self.bits@.len() as int
    }

    fn get(&self, index: usize) -> (r: Result<bool, IndexError>) {
        if index < self.bits.len() {
            Ok(self.bits[index])
        } else {
            Ok(false)
        }
    }

    fn len(&self) -> (r: usize) {
        self.bits.len()
    }
}

} // verus!
