//! Price levels, their pool handles, and the sorted per-side level sequence.
use vstd::prelude::*;
use crate::price::Price;
use crate::quantity::Qty;

verus! {

/// Handle of a level in the level pool.
#[derive(Clone, Copy, Debug, PartialEq, Eq, Structural, Hash, Default)]
pub struct LevelId(pub u32);

impl LevelId {
    /// Returns the raw index.
    pub fn value(&self) -> (r: u32)
        ensures
            r == self.0,
    {
        self.0
    }
}

/// A price point of a book with the aggregate size resting there.
#[derive(Clone, Copy, Debug, PartialEq, Eq, Structural)]
pub struct Level {
    pub price: Price,
    pub size: Qty,
}

impl Default for Level {
    fn default() -> (r: Self)
        ensures
            r.price.0 == 0,
            r.size.0 == 0,
    {
        Level { price: Price(0), size: Qty(0) }
    }
}

impl Level {
    /// Creates a level.
    pub fn new(price: Price, size: Qty) -> (r: Self)
        ensures
            r.price == price,
            r.size == size,
    {
        Level { price, size }
    }

    /// Returns the level's price.
    pub fn price(&self) -> (r: Price)
        ensures
            r == self.price,
    {
        self.price
    }

    /// Returns the aggregate size.
    pub fn size(&self) -> (r: Qty)
        ensures
            r == self.size,
    {
        self.size
    }

    /// Sets the price.
    pub fn set_price(&mut self, price: Price)
        ensures
            final(self).price == price,
            final(self).size == old(self).size,
    {
        self.price = price;
    }

    /// Sets the aggregate size.
    pub fn set_size(&mut self, size: Qty)
        ensures
            final(self).price == old(self).price,
            final(self).size == size,
    {
        self.size = size;
    }

    /// Adds to the aggregate size.
    pub fn incr(&mut self, size: Qty)
        requires
            old(self).size.0 + size.0 <= u32::MAX,
        ensures
            final(self).price == old(self).price,
            final(self).size.0 == old(self).size.0 + size.0,
    {
        self.size = self.size.add(size);
    }

    /// Takes from the aggregate size.
    pub fn decr(&mut self, size: Qty)
        requires
            size.0 <= old(self).size.0,
        ensures
            final(self).price == old(self).price,
            final(self).size.0 == old(self).size.0 - size.0,
    {
        self.size = self.size.sub(size);
    }

    /// True when nothing rests at the level.
    pub fn is_empty(&self) -> (r: bool)
        ensures
            r == (self.size.0 == 0),
    {
        self.size.is_empty()
    }

    /// True when the level belongs to the bid side.
    pub fn is_bid(&self) -> (r: bool)
        ensures
            r == (self.price.0 > 0),
    {
        self.price.is_bid()
    }

    /// True when the level belongs to the ask side.
    pub fn is_ask(&self) -> (r: bool)
        ensures
            r == (self.price.0 <= 0),
    {
        !self.price.is_bid()
    }
}

/// A level's price next to its pool handle, as stored in a side's sequence.
#[derive(Clone, Copy, Debug, PartialEq, Eq, Structural)]
pub struct PriceLevel {
    pub price: Price,
    pub level_idx: LevelId,
}

impl Default for PriceLevel {
    fn default() -> (r: Self)
        ensures
            r.price.0 == 0,
            r.level_idx.0 == 0,
    {
        PriceLevel { price: Price(0), level_idx: LevelId(0) }
    }
}

impl PriceLevel {
    /// Pairs a price with a level handle.
    pub fn new(price: Price, level_idx: LevelId) -> (r: Self)
        ensures
            r.price == price,
            r.level_idx == level_idx,
    {
        PriceLevel { price, level_idx }
    }

    /// Returns the price.
    pub fn price(&self) -> (r: Price)
        ensures
            r == self.price,
    {
        self.price
    }

    /// Returns the level handle.
    pub fn level_id(&self) -> (r: LevelId)
        ensures
            r == self.level_idx,
    {
        self.level_idx
    }
}

/// Prices strictly increase along the sequence.
pub open spec fn strictly_ascending(s: Seq<PriceLevel>) -> bool {
    forall|i: int, j: int| 0 <= i < j < s.len() ==> s[i].price.0 < s[j].price.0
}

/// Number of entries priced below `p`; in an ascending sequence, the index at
/// which a level priced `p` belongs.
pub open spec fn count_below(s: Seq<PriceLevel>, p: i32) -> nat
    decreases s.len(),
{
    if s.len() == 0 {
        0
    } else if s[0].price.0 < p {
        1 + count_below(s.drop_first(), p)
    } else {
        0
    }
}

/// Index of the last entry priced `p`, or -1 when none is.
pub open spec fn price_index(s: Seq<PriceLevel>, p: Price) -> int
    decreases s.len(),
{
    if s.len() == 0 {
        -1
    } else if s.last().price == p {
        s.len() - 1
    } else {
        price_index(s.drop_last(), p)
    }
}

/// `price_index` finds an entry priced `p` exactly when one exists.
pub proof fn lemma_price_index(s: Seq<PriceLevel>, p: Price)
    ensures
        -1 <= price_index(s, p) < s.len(),
        price_index(s, p) >= 0 ==> s[price_index(s, p)].price == p,
        price_index(s, p) >= 0 ==> forall|j: int|
            price_index(s, p) < j < s.len() ==> s[j].price != p,
        price_index(s, p) < 0 ==> forall|j: int| 0 <= j < s.len() ==> s[j].price != p,
    decreases s.len(),
{
    if s.len() > 0 && s.last().price != p {
        lemma_price_index(s.drop_last(), p);
        assert forall|j: int| 0 <= j < s.len() - 1 implies s[j] == s.drop_last()[j] by {}
    }
}

/// In an ascending sequence, the one entry priced `p` is at `price_index`.
pub proof fn lemma_price_index_unique(s: Seq<PriceLevel>, p: Price, i: int)
    requires
        strictly_ascending(s),
        0 <= i < s.len(),
        s[i].price == p,
    ensures
        price_index(s, p) == i,
{
    lemma_price_index(s, p);
}

/// `count_below` is the split point of an ascending sequence around `p`.
pub proof fn lemma_count_below(s: Seq<PriceLevel>, p: i32, i: int)
    requires
        0 <= i <= s.len(),
        forall|j: int| 0 <= j < i ==> s[j].price.0 < p,
        forall|j: int| i <= j < s.len() ==> s[j].price.0 >= p,
    ensures
        count_below(s, p) == i,
    decreases s.len(),
{
    if s.len() > 0 && i > 0 {
        let t = s.drop_first();
        assert forall|j: int| 0 <= j < i - 1 implies t[j].price.0 < p by {
            assert(t[j] == s[j + 1]);
        }
        assert forall|j: int| i - 1 <= j < t.len() implies t[j].price.0 >= p by {
            assert(t[j] == s[j + 1]);
        }
        lemma_count_below(t, p, i - 1);
    }
}

/// `count_below` is at most the length.
pub proof fn lemma_count_below_len(s: Seq<PriceLevel>, p: i32)
    ensures
        count_below(s, p) <= s.len(),
    decreases s.len(),
{
    if s.len() > 0 {
        lemma_count_below_len(s.drop_first(), p);
    }
}

/// One side of a book: its levels in ascending price order.
#[derive(Clone)]
pub struct SortedLevels(Vec<PriceLevel>);

impl View for SortedLevels {
    type V = Seq<PriceLevel>;

    closed spec fn view(&self) -> Seq<PriceLevel> {
        self.0@
    }
}

impl SortedLevels {
    /// Creates an empty side.
    pub fn new() -> (r: Self)
        ensures
            r@ == Seq::<PriceLevel>::empty(),
    {
        SortedLevels(Vec::new())
    }

    /// Number of levels.
    pub fn len(&self) -> (r: usize)
        ensures
            r == self@.len(),
    {
        self.0.len()
    }

    /// True when the side holds no level.
    pub fn is_empty(&self) -> (r: bool)
        ensures
            r == (self@.len() == 0),
    {
        self.0.len() == 0
    }

    /// The level at `idx`.
    pub fn get(&self, idx: usize) -> (r: &PriceLevel)
        requires
            idx < self@.len(),
        ensures
            *r == self@[idx as int],
    {
        &self.0[idx]
    }

    /// Mutable access to the level at `idx`.
    pub fn get_mut(&mut self, idx: usize) -> (r: &mut PriceLevel)
        requires
            idx < old(self)@.len(),
        ensures
            *r == old(self)@[idx as int],
            final(self)@ == old(self)@.update(idx as int, *final(r)),
    {
        &mut self.0[idx]
    }

    /// Inserts a level at `idx`.
    pub fn insert(&mut self, idx: usize, px: PriceLevel)
        requires
            idx <= old(self)@.len(),
        ensures
            final(self)@ == old(self)@.insert(idx as int, px),
    {
        self.0.insert(idx, px);
    }

    /// Removes every level priced `price`.
    pub fn remove(&mut self, price: Price)
        ensures
            final(self)@ == old(self)@.filter(|x: PriceLevel| x.price != price),
    {
        let mut kept: Vec<PriceLevel> = Vec::new();
        let mut i: usize = 0;
        while i < self.0.len()
            invariant
                i <= self.0@.len(),
                kept@ == self.0@.subrange(0, i as int).filter(|x: PriceLevel| x.price != price),
            decreases self.0@.len() - i,
        {
            let px = self.0[i];
            proof {
                reveal(Seq::filter);
                let s1 = self.0@.subrange(0, i + 1);
                assert(s1.drop_last() == self.0@.subrange(0, i as int));
                assert(s1.last() == px);
            }
            if px.price != price {
                kept.push(px);
            }
            i = i + 1;
        }
        assert(self.0@.subrange(0, self.0@.len() as int) == self.0@);
        self.0 = kept;
    }
}

} // verus!
