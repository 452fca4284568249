//! Sizes in larger units.

use vstd::prelude::*;

verus! {

pub trait Bytes {
    /// The size in bytes.
    spec fn spec_bytes(&self) -> int;

    fn kb(&self) -> (r: usize)
        ensures
            r == self.spec_bytes() / 1024,
    ;

    fn mb(&self) -> (r: usize)
        ensures
            r == self.spec_bytes() / 1024 / 1024,
    {
        self.kb() / 1024
    }

    fn gb(&self) -> (r: usize)
        ensures
            r == self.spec_bytes() / 1024 / 1024 / 1024,
    {
        self.mb() / 1024
    }
}

impl Bytes for usize {
    open spec fn spec_bytes(&self) -> int {
        *self as int
    }

    fn kb(&self) -> (r: usize) {
        *self / 1024
    }
}

} // verus!
