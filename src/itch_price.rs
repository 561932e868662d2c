//! Wire prices of the feed: fixed point with four or eight decimal places.
use vstd::prelude::*;

verus! {

/// A price to four decimal places.
#[derive(Clone, Copy, Debug, PartialEq, Eq, Structural)]
pub struct Price4(pub u32);

impl Price4 {
    /// The raw fixed-point value.
    pub fn raw(self) -> (r: u32)
        ensures
            r == self.0,
    {
        self.0
    }
}

impl From<u32> for Price4 {
    fn from(v: u32) -> (r: Price4)
        ensures
            r.0 == v,
    {
        Price4(v)
    }
}

impl vstd::std_specs::convert::FromSpecImpl<u32> for Price4 {
    open spec fn obeys_from_spec() -> bool {
        true
    }

    open spec fn from_spec(v: u32) -> Price4 {
        Price4(v)
    }
}

/// A price to eight decimal places.
#[derive(Clone, Copy, Debug, PartialEq, Eq, Structural)]
pub struct Price8(pub u64);

impl Price8 {
    /// The raw fixed-point value.
    pub fn raw(self) -> (r: u64)
        ensures
            r == self.0,
    {
        self.0
    }
}

impl From<u64> for Price8 {
    fn from(v: u64) -> (r: Price8)
        ensures
            r.0 == v,
    {
        Price8(v)
    }
}

impl vstd::std_specs::convert::FromSpecImpl<u64> for Price8 {
    open spec fn obeys_from_spec() -> bool {
        true
    }

    open spec fn from_spec(v: u64) -> Price8 {
        Price8(v)
    }
}

} // verus!
