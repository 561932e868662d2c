//! Share quantities.
use vstd::prelude::*;

verus! {

/// A number of shares.
#[derive(Clone, Copy, Debug, PartialEq, Eq, Structural, PartialOrd, Ord, Hash, Default)]
pub struct Qty(pub u32);

impl Qty {
    /// Returns the number of shares.
    pub fn value(&self) -> (r: u32)
        ensures
            r == self.0,
    {
        self.0
    }

    /// True when no shares are held.
    pub fn is_empty(&self) -> (r: bool)
        ensures
            r == (self.0 == 0),
    {
        self.0 == 0
    }

    /// The sum of two quantities.
    pub fn add(&self, other: Qty) -> (r: Qty)
        requires
            self.0 + other.0 <= u32::MAX,
        ensures
            r.0 == self.0 + other.0,
    {
        Qty(self.0 + other.0)
    }

    /// The difference of two quantities.
    pub fn sub(&self, other: Qty) -> (r: Qty)
        requires
            other.0 <= self.0,
        ensures
            r.0 == self.0 - other.0,
    {
        Qty(self.0 - other.0)
    }
}

} // verus!
