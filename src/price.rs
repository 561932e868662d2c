//! Signed fixed-point price: bids positive, asks negated.
use vstd::prelude::*;

verus! {

/// A price in 1/10000 currency units; bids carry the positive value and asks
/// the negation of the same magnitude.
#[derive(Clone, Copy, Debug, PartialEq, Eq, Structural, PartialOrd, Ord, Hash, Default)]
pub struct Price(pub i32);

/// The signed price of a side-tagged unsigned wire price.
pub open spec fn signed_price(price: u32, is_bid: bool) -> int {
    if is_bid {
        price as int
    } else {
        -(price as int)
    }
}

impl Price {
    /// Returns the value of the price.
    pub fn value(&self) -> (r: i32)
        ensures
            r == self.0,
    {
        self.0
    }

    /// Returns true if the price is a bid (strictly positive).
    pub fn is_bid(&self) -> (r: bool)
        ensures
            r == (self.0 > 0),
    {
        self.0 > 0
    }

    /// Returns the absolute value of the price.
    pub fn absolute(&self) -> (r: i32)
        requires
            self.0 != i32::MIN,
        ensures
            r as int == if self.0 < 0 { -(self.0 as int) } else { self.0 as int },
    {
        if self.0 < 0 {
            -self.0
        } else {
            self.0
        }
    }

    /// Converts a wire price and a side into a signed price.
    pub fn from_u32(price: u32, is_bid: bool) -> (r: Price)
        requires
            price <= i32::MAX,
        ensures
            r.0 as int == signed_price(price, is_bid),
    {
        let p = price as i32;
        if is_bid {
            Price(p)
        } else {
            Price(-p)
        }
    }
}

} // verus!
