//! The set of books, the shared level pool and the order index, driven by
//! the five feed commands.
use vstd::prelude::*;
use crate::level::{
    count_below, lemma_price_index, lemma_price_index_unique, price_index, LevelId, PriceLevel,
};
use crate::manager_steps::{
    book_or_empty, lemma_add_step, lemma_cancel_step, lemma_order_within, lemma_remove_step,
};
use crate::model::{depth_below, depth_index, empty_model, BookModel, Depth, Model, Resting};
use crate::order::{grown, OidMap, Order, OrderId};
use crate::orderbook::{live, side_wf, OrderBook};
use crate::pool::LevelPool;
use crate::price::{signed_price, Price};
use crate::quantity::Qty;
use crate::utils::{BookId, MAX_BOOKS, MAX_LEVELS};

verus! {

/// How much order `v` puts at level `id`.
pub open spec fn share(v: Option<Order>, id: u32) -> int {
    match v {
        Some(o) => if o.level_id.0 == id {
            o.qty.0 as int
        } else {
            0
        },
        None => 0,
    }
}

/// Total quantity that the slots `s` rest at level `id`.
pub open spec fn qty_at(s: Seq<Option<Order>>, id: u32) -> int
    decreases s.len(),
{
    if s.len() == 0 {
        0
    } else {
        qty_at(s.drop_last(), id) + share(s.last(), id)
    }
}

/// A side as prices and aggregate sizes read from the pool.
pub open spec fn depth(s: Seq<PriceLevel>, pool: &LevelPool) -> Seq<Depth> {
    s.map_values(
        |pl: PriceLevel|
            Depth {
                price: pl.price.0 as int,
                size: pool.levels()[pl.level_idx.0 as int].size.0 as int,
            },
    )
}

pub proof fn lemma_depth_index(s: Seq<PriceLevel>, pool: &LevelPool, p: Price)
    ensures
        depth_index(depth(s, pool), p.0 as int) == price_index(s, p),
    decreases s.len(),
{
    if s.len() > 0 {
        assert(depth(s, pool).drop_last() == depth(s.drop_last(), pool));
        lemma_depth_index(s.drop_last(), pool, p);
    }
}

pub(crate) proof fn lemma_depth_below(s: Seq<PriceLevel>, pool: &LevelPool, p: i32)
    ensures
        depth_below(depth(s, pool), p as int) == count_below(s, p),
    decreases s.len(),
{
    if s.len() > 0 {
        assert(depth(s, pool).drop_first() == depth(s.drop_first(), pool));
        lemma_depth_below(s.drop_first(), pool, p);
    }
}

/// Books by id, the level pool they share, and the index of resting orders.
pub struct OrderBookManager {
    pub books: Vec<Option<OrderBook>>,
    pub level_pool: LevelPool,
    pub oid_map: OidMap,
    /// For each level in use, the book listing it.
    pub owner: Ghost<Map<u32, u16>>,
}

impl OrderBookManager {
    /// The book stored under `b`.
    pub open spec fn book(&self, b: int) -> OrderBook {
        self.books@[b]->0
    }

    /// True when a book is stored under `b`.
    pub open spec fn has_book(&self, b: int) -> bool {
        self.books@[b] is Some
    }

    /// Book `b` as sides of prices and sizes; an absent book has none.
    pub open spec fn book_model(&self, b: int) -> BookModel {
        if self.has_book(b) {
            BookModel {
                bids: depth(self.book(b).bids@, &self.level_pool),
                asks: depth(self.book(b).asks@, &self.level_pool),
            }
        } else {
            BookModel { bids: Seq::empty(), asks: Seq::empty() }
        }
    }

    /// The state of all books and resting orders.
    pub open spec fn model(&self) -> Model {
        Model {
            books: Seq::new(MAX_BOOKS as nat, |b: int| self.book_model(b)),
            orders: Map::new(
                |k: u32| self.oid_map.orders().contains_key(k),
                |k: u32|
                    Resting {
                        book: self.oid_map.orders()[k].book_id.0 as int,
                        price: self.level_pool.levels()[self.oid_map.orders()[k].level_id.0 as int].price.0 as int,
                        qty: self.oid_map.orders()[k].qty.0 as int,
                    },
            ),
        }
    }

    /// Every stored book is well formed and lists only levels it owns.
    pub open spec fn books_wf(&self) -> bool {
        &&& self.books@.len() == MAX_BOOKS
        &&& forall|b: int|
            0 <= b < MAX_BOOKS && #[trigger] self.has_book(b) ==> self.book(b).wf(&self.level_pool)
        &&& forall|b: int, bid: bool, i: int|
            0 <= b < MAX_BOOKS && self.has_book(b) && 0 <= i < self.book(b).side(bid).len()
                ==> self.owner@.contains_key(#[trigger] self.book(b).side(bid)[i].level_idx.0)
                && self.owner@[self.book(b).side(bid)[i].level_idx.0] == b
    }

    /// Every level in use is listed by the book that owns it.
    pub open spec fn levels_listed(&self) -> bool {
        forall|id: u32|
            #[trigger] live(&self.level_pool, id) ==> {
                &&& self.owner@.contains_key(id)
                &&& (self.owner@[id] as int) < MAX_BOOKS
                &&& self.has_book(self.owner@[id] as int)
                &&& self.book(self.owner@[id] as int).lists(&self.level_pool, id)
            }
    }

    /// Every resting order holds shares at a level in use of its own book.
    pub open spec fn orders_placed(&self) -> bool {
        forall|k: u32|
            #[trigger] self.oid_map.orders().contains_key(k) ==> {
                let o = self.oid_map.orders()[k];
                &&& o.qty.0 > 0
                &&& live(&self.level_pool, o.level_id.0)
                &&& self.owner@[o.level_id.0] == o.book_id.0
            }
    }

    /// No level holds less than the orders resting at it.
    pub open spec fn levels_cover(&self) -> bool {
        forall|id: u32|
            #[trigger] live(&self.level_pool, id) ==> qty_at(self.oid_map.slots(), id)
                <= self.level_pool.levels()[id as int].size.0
    }

    /// The manager's invariant.
    pub open spec fn wf(&self) -> bool {
        &&& self.level_pool.wf()
        &&& self.oid_map.slots().len() <= u32::MAX + 1
        &&& self.books_wf()
        &&& self.levels_listed()
        &&& self.orders_placed()
        &&& self.levels_cover()
    }

    /// Each level's size is exactly the sum of the orders resting at it.
    pub open spec fn exact(&self) -> bool {
        forall|id: u32|
            #[trigger] live(&self.level_pool, id) ==> qty_at(self.oid_map.slots(), id)
                == self.level_pool.levels()[id as int].size.0
    }
}

impl Default for OrderBookManager {
    fn default() -> (r: Self)
        ensures
            r.wf(),
            r.exact(),
            r.model() == empty_model(),
            r.level_pool.levels().len() == 0,
    {
        OrderBookManager::new()
    }
}

impl OrderBookManager {
    /// Creates a manager with no book, no level and no order.
    pub fn new() -> (r: Self)
        ensures
            r.wf(),
            r.exact(),
            r.model() == empty_model(),
            r.level_pool.levels().len() == 0,
    {
        let books: Vec<Option<OrderBook>> = vec![None; MAX_BOOKS];
        let r = OrderBookManager {
            books,
            level_pool: LevelPool::new_with_capacity(MAX_LEVELS),
            oid_map: OidMap::new(),
            owner: Ghost(Map::empty()),
        };
        proof {
            assert forall|b: int| 0 <= b < MAX_BOOKS implies !r.has_book(b) by {
                assert(r.books@[b] is None);
            }
            assert(r.model().books =~= empty_model().books);
            assert(r.model().orders =~= empty_model().orders);
        }
        r
    }

    /// Rests `qty` shares of order `order_id` in book `book_id` at the wire
    /// price `price32`, on the bid side when `is_bid`; creates the book on
    /// first use.
    pub fn add_order(
        &mut self,
        order_id: OrderId,
        book_id: BookId,
        qty: Qty,
        price32: u32,
        is_bid: bool,
    )
        requires
            old(self).wf(),
            (book_id.0 as int) < MAX_BOOKS,
            qty.0 > 0,
            price32 <= i32::MAX,
            (order_id.0 as int) < usize::MAX,
            old(self).level_pool.can_alloc(),
            old(self).model().has_room(
                book_id.0 as int,
                signed_price(price32, is_bid),
                qty.0 as int,
            ),
        ensures
            final(self).wf(),
            final(self).model() == old(self).model().add(
                order_id.0,
                book_id.0 as int,
                qty.0 as int,
                signed_price(price32, is_bid),
            ),
            old(self).exact() && !old(self).model().orders.contains_key(order_id.0)
                ==> final(self).exact(),
            final(self).level_pool.levels().len() <= old(self).level_pool.levels().len() + 1,
    {
        let ghost m0 = *self;
        let price = Price::from_u32(price32, is_bid);
        self.oid_map.reserve(order_id);
        let mut order = Order::new(qty, LevelId(0), book_id);
        let b = book_id.0 as usize;
        let mut slot: Option<OrderBook> = None;
        self.books.set_and_swap(b, &mut slot);
        let mut book = match slot {
            Some(bk) => bk,
            None => OrderBook::new(),
        };
        let ghost ob = book;
        proof {
            if m0.has_book(b as int) {
                assert(m0.book(b as int).wf(&m0.level_pool));
            }
            let sd = ob.side(price.0 > 0);
            lemma_depth_index(sd, &m0.level_pool, price);
            lemma_price_index(sd, price);
            assert(m0.model().side(b as int, price.0 > 0) == depth(sd, &m0.level_pool));
            let k = price_index(sd, price);
            if k >= 0 {
                assert(depth(sd, &m0.level_pool)[k].size == m0.level_pool.levels()[sd[k].level_idx.0 as int].size.0);
            }
        }
        book.add_order(&mut order, price, qty, &mut self.level_pool);
        self.books.set(b, Some(book));
        self.oid_map.insert(order_id, &order);
        self.owner = Ghost(self.owner@.insert(order.level_id.0, book_id.0));
        proof {
            assert(self.books@ =~= m0.books@.update(b as int, Some(book)));
            assert(self.oid_map.slots() =~= grown(m0.oid_map.slots(), order_id.0 + 1).update(order_id.0 as int, Some(order)));
            assert(book_or_empty(&m0, b as int, ob));
            lemma_add_step(&m0, self, order_id.0, b as int, price, qty, ob, book, order);
        }
    }

    /// Takes order `order_id` off the book; a level left empty leaves its
    /// side and its handle returns to the pool. An unknown id changes nothing.
    pub fn remove_order(&mut self, order_id: OrderId)
        requires
            old(self).wf(),
        ensures
            final(self).wf(),
            final(self).model() == old(self).model().remove(order_id.0),
            old(self).exact() ==> final(self).exact(),
            old(self).level_pool.can_alloc() ==> final(self).level_pool.can_alloc(),
            final(self).level_pool.levels().len() == old(self).level_pool.levels().len(),
    {
        let ghost m0 = *self;
        let found = match self.oid_map.get(order_id) {
            Some(o) => Some(*o),
            None => None,
        };
        match found {
            Some(order0) => {
                let mut order = order0;
                proof {
                    assert(m0.oid_map.orders().contains_key(order_id.0));
                    assert(live(&m0.level_pool, order.level_id.0));
                    lemma_order_within(&m0, order_id.0);
                }
                let b = order.book_id.0 as usize;
                let mut slot: Option<OrderBook> = None;
                self.books.set_and_swap(b, &mut slot);
                match slot {
                    Some(book0) => {
                        let mut book = book0;
                        book.remove_order(&mut order, &mut self.level_pool);
                        self.books.set(b, Some(book));
                        self.oid_map.remove(order_id);
                        proof {
                            assert(self.books@ =~= m0.books@.update(b as int, Some(book)));
                            lemma_remove_step(&m0, self, order_id.0, book0, book, order);
                        }
                    },
                    None => {},
                }
            },
            None => {
                proof {
                    assert(m0.model().remove(order_id.0) == m0.model());
                }
            },
        }
    }

    /// Cancels `qty` shares of order `order_id`: the order and its level
    /// shrink by `qty`; cancelling all it holds, or more, takes it off the
    /// book. An unknown id changes nothing.
    pub fn cancel_order(&mut self, order_id: OrderId, qty: Qty)
        requires
            old(self).wf(),
        ensures
            final(self).wf(),
            final(self).model() == old(self).model().cancel(order_id.0, qty.0 as int),
            old(self).exact() ==> final(self).exact(),
            old(self).level_pool.can_alloc() ==> final(self).level_pool.can_alloc(),
            final(self).level_pool.levels().len() == old(self).level_pool.levels().len(),
    {
        let ghost m0 = *self;
        let found = match self.oid_map.get(order_id) {
            Some(o) => Some(*o),
            None => None,
        };
        match found {
            Some(order0) => {
                let mut order = order0;
                if qty.0 >= order.qty.0 {
                    self.remove_order(order_id);
                } else {
                    proof {
                        assert(m0.oid_map.orders().contains_key(order_id.0));
                        assert(live(&m0.level_pool, order.level_id.0));
                        lemma_order_within(&m0, order_id.0);
                    }
                    let b = order.book_id.0 as usize;
                    let mut slot: Option<OrderBook> = None;
                    self.books.set_and_swap(b, &mut slot);
                    match slot {
                        Some(book0) => {
                            let mut book = book0;
                            book.reduce_order(&mut order, qty, &mut self.level_pool);
                            self.books.set(b, Some(book));
                            self.oid_map.update_qty(order_id, qty);
                            proof {
                                assert(self.books@ =~= m0.books@);
                                lemma_cancel_step(&m0, self, order_id.0, order0, qty.0);
                            }
                        },
                        None => {},
                    }
                }
            },
            None => {},
        }
    }

    /// Executes `qty` shares of order `order_id`: all it holds removes it,
    /// fewer leave a residue. An unknown id changes nothing.
    pub fn execute_order(&mut self, order_id: OrderId, qty: Qty)
        requires
            old(self).wf(),
        ensures
            final(self).wf(),
            final(self).model() == old(self).model().execute(order_id.0, qty.0 as int),
            old(self).exact() ==> final(self).exact(),
            old(self).level_pool.can_alloc() ==> final(self).level_pool.can_alloc(),
            final(self).level_pool.levels().len() == old(self).level_pool.levels().len(),
    {
        let held = match self.oid_map.get(order_id) {
            Some(o) => Some(o.qty),
            None => None,
        };
        match held {
            Some(h) => {
                if h.0 == qty.0 {
                    self.remove_order(order_id);
                } else {
                    self.cancel_order(order_id, qty);
                }
            },
            None => {},
        }
    }

    /// Replaces order `order_id` by order `new_order_id` of `new_qty` shares
    /// at wire price `new_price`, on the old order's book and side. When the
    /// old order is unknown, the new one goes to book 0 on the bid side.
    pub fn replace_order(
        &mut self,
        order_id: OrderId,
        new_order_id: OrderId,
        new_qty: Qty,
        new_price: u32,
    )
        requires
            old(self).wf(),
            new_qty.0 > 0,
            new_price <= i32::MAX,
            (new_order_id.0 as int) < usize::MAX,
            old(self).level_pool.can_alloc(),
            old(self).model().remove(order_id.0).has_room(
                old(self).model().replace_book(order_id.0),
                signed_price(new_price, old(self).model().replace_bid(order_id.0)),
                new_qty.0 as int,
            ),
        ensures
            final(self).wf(),
            final(self).model() == old(self).model().replace(
                order_id.0,
                new_order_id.0,
                new_qty.0 as int,
                new_price as int,
            ),
            old(self).exact() && !old(self).model().remove(order_id.0).orders.contains_key(
                new_order_id.0,
            ) ==> final(self).exact(),
            final(self).level_pool.levels().len() <= old(self).level_pool.levels().len() + 1,
    {
        let ghost m0 = *self;
        let mut is_bid = true;
        let mut book_id = BookId(0);
        let found = match self.oid_map.get(order_id) {
            Some(o) => Some(*o),
            None => None,
        };
        match found {
            Some(order) => {
                proof {
                    assert(m0.oid_map.orders().contains_key(order_id.0));
                }
                match self.level_pool.get(order.level_id) {
                    Some(l) => {
                        is_bid = l.price.is_bid();
                    },
                    None => {},
                }
                book_id = order.book_id;
                proof {
                    assert(live(&m0.level_pool, order.level_id.0));
                    assert((m0.owner@[order.level_id.0] as int) < MAX_BOOKS);
                }
            },
            None => {},
        }
        self.remove_order(order_id);
        self.add_order(new_order_id, book_id, new_qty, new_price, is_bid);
    }

    /// The aggregate size resting in book `book_id` at wire price `price32`
    /// on the side `is_bid` selects, or `None` when no level has that price.
    pub fn level_size(&self, book_id: BookId, price32: u32, is_bid: bool) -> (r: Option<Qty>)
        requires
            self.wf(),
            (book_id.0 as int) < MAX_BOOKS,
            price32 <= i32::MAX,
        ensures
            ({
                let p = signed_price(price32, is_bid);
                let s = self.model().side(book_id.0 as int, p > 0);
                &&& depth_index(s, p) >= 0 ==> r == Some(Qty(s[depth_index(s, p)].size as u32))
                &&& depth_index(s, p) < 0 ==> r is None
            }),
    {
        let price = Price::from_u32(price32, is_bid);
        let b = book_id.0 as usize;
        match &self.books[b] {
            Some(book) => {
                let side = if price.is_bid() {
                    &book.bids
                } else {
                    &book.asks
                };
                let ghost s = side@;
                proof {
                    assert(self.books@[b as int] == Some(*book));
                    assert(self.has_book(b as int));
                    assert(self.book(b as int) == *book);
                    assert(book.wf(&self.level_pool));
                    assert(s == book.side(price.0 > 0));
                    lemma_depth_index(s, &self.level_pool, price);
                    lemma_price_index(s, price);
                    assert(self.model().side(b as int, price.0 > 0) == depth(s, &self.level_pool));
                }
                let mut i: usize = side.len();
                while i > 0
                    invariant
                        i <= s.len(),
                        s == side@,
                        forall|j: int| i <= j < s.len() ==> s[j].price != price,
                        side_wf(s, price.0 > 0, &self.level_pool),
                        price.0 as int == signed_price(price32, is_bid),
                        b as int == book_id.0 as int,
                        self.model().side(b as int, price.0 > 0) == depth(s, &self.level_pool),
                        depth_index(depth(s, &self.level_pool), price.0 as int) == price_index(s, price),
                    decreases i,
                {
                    let pl = side.get(i - 1);
                    if pl.price.0 == price.0 {
                        proof {
                            lemma_price_index_unique(s, price, i - 1);
                            let k = i - 1;
                            assert(s[k as int] == *pl);
                            assert(live(&self.level_pool, pl.level_idx.0));
                            assert(depth(s, &self.level_pool)[k as int].size == self.level_pool.levels()[pl.level_idx.0 as int].size.0);
                            let sz = self.level_pool.levels()[pl.level_idx.0 as int].size;
                            assert(Qty(sz.0 as int as u32) == sz);
                        }
                        return match self.level_pool.get(pl.level_idx) {
                            Some(l) => Some(l.size),
                            None => None,
                        };
                    }
                    i = i - 1;
                }
                None
            },
            None => None,
        }
    }
}

} // verus!
