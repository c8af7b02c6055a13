//! Integer types that can stand for a pixel's palette index.
use vstd::prelude::*;

verus! {

/// An unsigned integer type whose values convert without loss to a
/// `usize` palette index.
pub trait Index: Copy {
    /// The palette index that the value stands for.
    spec fn spec_index(&self) -> usize;

    fn index(self) -> (r: usize)
        ensures
            r == self.spec_index(),
    ;
}

impl Index for u32 {
    open spec fn spec_index(&self) -> usize {
        *self as usize
    }

    fn index(self) -> (r: usize) {
        self as usize
    }
}

impl Index for u64 {
    open spec fn spec_index(&self) -> usize {
        *self as usize
    }

    fn index(self) -> (r: usize) {
        self as usize
    }
}

impl Index for usize {
    open spec fn spec_index(&self) -> usize {
        *self
    }

    fn index(self) -> (r: usize) {
        self
    }
}

} // verus!
