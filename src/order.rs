//! Resting orders and the dense order-id index.
use vstd::prelude::*;
use crate::level::LevelId;
use crate::quantity::Qty;
use crate::utils::{BookId, INITIAL_ORDER_COUNT};

verus! {

/// Identifier of an order (the feed's order reference, narrowed to 32 bits).
#[derive(Clone, Copy, Debug, PartialEq, Eq, Structural, Hash, Default)]
pub struct OrderId(pub u32);

/// A resting order: its level, its book and its remaining quantity.
#[derive(Clone, Copy, Debug, PartialEq, Eq, Structural, Default)]
pub struct Order {
    pub level_id: LevelId,
    pub book_id: BookId,
    pub qty: Qty,
}

impl Order {
    /// Creates an order.
    pub fn new(qty: Qty, level_id: LevelId, book_id: BookId) -> (r: Self)
        ensures
            r == (Order { level_id, book_id, qty }),
    {
        Order { level_id, book_id, qty }
    }

    /// Overwrites this order with another.
    pub fn replace(&mut self, order: Order)
        ensures
            *final(self) == order,
    {
        self.level_id = order.level_id;
        self.book_id = order.book_id;
        self.qty = order.qty;
    }

    /// Returns the remaining quantity.
    pub fn qty(&self) -> (r: Qty)
        ensures
            r == self.qty,
    {
        self.qty
    }

    /// Returns the book.
    pub fn book_id(&self) -> (r: BookId)
        ensures
            r == self.book_id,
    {
        self.book_id
    }

    /// Returns the level.
    pub fn level_id(&self) -> (r: LevelId)
        ensures
            r == self.level_id,
    {
        self.level_id
    }

    /// Sets the remaining quantity.
    pub fn set_qty(&mut self, qty: Qty)
        ensures
            *final(self) == (Order { qty, ..*old(self) }),
    {
        self.qty = qty;
    }

    /// Sets the book.
    pub fn set_book_id(&mut self, book_id: BookId)
        ensures
            *final(self) == (Order { book_id, ..*old(self) }),
    {
        self.book_id = book_id;
    }

    /// Sets the level.
    pub fn set_level_id(&mut self, level_id: LevelId)
        ensures
            *final(self) == (Order { level_id, ..*old(self) }),
    {
        self.level_id = level_id;
    }
}

/// `s` extended with empty slots up to length `n`, or `s` when already that long.
pub open spec fn grown(s: Seq<Option<Order>>, n: int) -> Seq<Option<Order>> {
    if n <= s.len() {
        s
    } else {
        s + Seq::new((n - s.len()) as nat, |i: int| None::<Order>)
    }
}

/// Orders indexed densely by order id; an empty slot means "no such order".
pub struct OidMap {
    data: Vec<Option<Order>>,
}

impl Default for OidMap {
    fn default() -> (r: Self)
        ensures
            r.slots() == Seq::new(INITIAL_ORDER_COUNT as nat, |i: int| None::<Order>),
    {
        OidMap::new()
    }
}

impl OidMap {
    /// The slots, indexed by order id.
    pub closed spec fn slots(&self) -> Seq<Option<Order>> {
        self.data@
    }

    /// The orders held, by id.
    pub open spec fn orders(&self) -> Map<u32, Order> {
        Map::new(
            |k: u32| (k as int) < self.slots().len() && self.slots()[k as int] is Some,
            |k: u32| self.slots()[k as int]->0,
        )
    }

    /// Creates an index with `INITIAL_ORDER_COUNT` empty slots.
    pub fn new() -> (r: Self)
        ensures
            r.slots() == Seq::new(INITIAL_ORDER_COUNT as nat, |i: int| None::<Order>),
    {
        let data: Vec<Option<Order>> = vec![None; INITIAL_ORDER_COUNT];
        let r = OidMap { data };
        assert(r.slots() == Seq::new(INITIAL_ORDER_COUNT as nat, |i: int| None::<Order>));
        r
    }

    /// Grows the index so that `oid` has a slot.
    pub fn reserve(&mut self, oid: OrderId)
        requires
            (oid.0 as int) < usize::MAX,
        ensures
            final(self).slots() == grown(old(self).slots(), oid.0 + 1),
    {
        let idx = oid.0 as usize;
        if idx >= self.data.len() {
            self.data.resize(idx + 1, None);
            assert(self.data@ == grown(old(self).slots(), oid.0 + 1));
        }
    }

    /// Stores an order under `oid`, growing the index if needed.
    pub fn insert(&mut self, oid: OrderId, value: &Order)
        requires
            (oid.0 as int) < usize::MAX,
        ensures
            final(self).slots() == grown(old(self).slots(), oid.0 + 1).update(
                oid.0 as int,
                Some(*value),
            ),
    {
        self.reserve(oid);
        self.data.set(oid.0 as usize, Some(*value));
    }

    /// Clears the slot of `oid`.
    pub fn remove(&mut self, oid: OrderId)
        ensures
            final(self).slots() == if (oid.0 as int) < old(self).slots().len() {
                old(self).slots().update(oid.0 as int, None)
            } else {
                old(self).slots()
            },
    {
        let idx = oid.0 as usize;
        if idx < self.data.len() {
            self.data.set(idx, None);
        }
    }

    /// Takes `qty` from the order stored under `oid`, if any.
    pub fn update_qty(&mut self, oid: OrderId, qty: Qty)
        requires
            old(self).orders().contains_key(oid.0) ==> qty.0 <= old(self).orders()[oid.0].qty.0,
        ensures
            final(self).slots() == if old(self).orders().contains_key(oid.0) {
                old(self).slots().update(
                    oid.0 as int,
                    Some(
                        Order {
                            qty: Qty((old(self).orders()[oid.0].qty.0 - qty.0) as u32),
                            ..old(self).orders()[oid.0]
                        },
                    ),
                )
            } else {
                old(self).slots()
            },
    {
        let idx = oid.0 as usize;
        if idx < self.data.len() {
            match self.data[idx] {
                Some(order) => {
                    let updated = Order { qty: order.qty.sub(qty), ..order };
                    self.data.set(idx, Some(updated));
                },
                None => {},
            }
        }
    }

    /// The order stored under `oid`, if any.
    pub fn get(&self, oid: OrderId) -> (r: Option<&Order>)
        ensures
            r.is_some() == self.orders().contains_key(oid.0),
            r.is_some() ==> *r.unwrap() == self.orders()[oid.0],
    {
        let idx = oid.0 as usize;
        if idx < self.data.len() {
            self.data[idx].as_ref()
        } else {
            None
        }
    }
}

} // verus!
