//! One instrument's book: bid and ask levels over the shared level pool.
use vstd::prelude::*;
use crate::level::{
    count_below, lemma_count_below, lemma_price_index, lemma_price_index_unique, price_index,
    strictly_ascending, Level, LevelId, PriceLevel, SortedLevels,
};
use crate::order::Order;
use crate::pool::LevelPool;
use crate::price::Price;
use crate::quantity::Qty;

verus! {

/// A handle names a level in use: in range and not on the free list.
pub open spec fn live(pool: &LevelPool, id: u32) -> bool {
    (id as int) < pool.levels().len() && !pool.is_free(id)
}

/// A side is ascending, holds prices of its own sign only, and each entry
/// names a live level with the same price and a positive aggregate size.
pub open spec fn side_wf(s: Seq<PriceLevel>, bid: bool, pool: &LevelPool) -> bool {
    &&& strictly_ascending(s)
    &&& forall|i: int|
        #![trigger s[i]]
        0 <= i < s.len() ==> {
            &&& (s[i].price.0 > 0) == bid
            &&& live(pool, s[i].level_idx.0)
            &&& pool.levels()[s[i].level_idx.0 as int].price == s[i].price
            &&& pool.levels()[s[i].level_idx.0 as int].size.0 > 0
        }
}

/// `s` without its entries priced `p` is `s` itself when none is priced `p`.
proof fn lemma_filter_none(s: Seq<PriceLevel>, p: Price)
    requires
        forall|j: int| 0 <= j < s.len() ==> s[j].price != p,
    ensures
        s.filter(|x: PriceLevel| x.price != p) == s,
    decreases s.len(),
{
    reveal(Seq::filter);
    if s.len() > 0 {
        lemma_filter_none(s.drop_last(), p);
        assert(s.drop_last().push(s.last()) == s);
    }
}

/// In an ascending side, dropping the entries priced `s[k].price` removes index `k`.
proof fn lemma_filter_one(s: Seq<PriceLevel>, k: int)
    requires
        strictly_ascending(s),
        0 <= k < s.len(),
    ensures
        s.filter(|x: PriceLevel| x.price != s[k].price) == s.remove(k),
    decreases s.len(),
{
    reveal(Seq::filter);
    let p = s[k].price;
    let d = s.drop_last();
    if k == s.len() - 1 {
        lemma_filter_none(d, p);
        assert(d == s.remove(k));
    } else {
        assert(d[k] == s[k]);
        lemma_filter_one(d, k);
        assert(d.remove(k).push(s.last()) == s.remove(k));
    }
}

/// Frees no handle but `id`, keeps every other stored level, and may only grow.
pub open spec fn pool_frame(pool: &LevelPool, pool2: &LevelPool, id: u32) -> bool {
    &&& pool.levels().len() <= pool2.levels().len()
    &&& forall|j: int|
        0 <= j < pool.levels().len() && j != id ==> #[trigger] pool2.levels()[j]
            == pool.levels()[j]
    &&& forall|j: u32| j != id && #[trigger] pool2.is_free(j) ==> pool.is_free(j)
}

/// A side that does not name `id` stays well formed when the pool changes
/// only at `id`.
pub proof fn lemma_side_frame(
    s: Seq<PriceLevel>,
    bid: bool,
    pool: &LevelPool,
    pool2: &LevelPool,
    id: u32,
)
    requires
        side_wf(s, bid, pool),
        pool_frame(pool, pool2, id),
        forall|i: int| 0 <= i < s.len() ==> s[i].level_idx.0 != id,
    ensures
        side_wf(s, bid, pool2),
{
    assert forall|i: int| 0 <= i < s.len() implies live(&pool2, #[trigger] s[i].level_idx.0) by {
        let j = s[i].level_idx.0;
        if pool2.is_free(j) {
            assert(pool.is_free(j));
        }
    }
    assert forall|i: int| 0 <= i < s.len() implies pool2.levels()[#[trigger] s[i].level_idx.0 as int]
        == pool.levels()[s[i].level_idx.0 as int] by {}
}

/// After `alloc_level`, only the handed-out handle has left the free list.
pub proof fn lemma_alloc_frame(pool: &LevelPool, pool2: &LevelPool, lv: Level)
    requires
        pool.wf(),
        pool.can_alloc(),
        pool2.levels() == pool.levels_after_alloc().update(pool.next_id().0 as int, lv),
        pool2.free_ids() == pool.free_after_alloc(),
    ensures
        pool_frame(pool, pool2, pool.next_id().0),
        pool2.wf(),
        live(&pool2, pool.next_id().0),
        pool2.levels()[pool.next_id().0 as int] == lv,
        !live(pool, pool.next_id().0),
{
    let id = pool.next_id().0;
    let f = pool.free_ids();
    if f.len() > 0 {
        assert(pool.is_free(id) && (f.len() - 1) >= 0 && f[f.len() - 1].0 == id);
        assert forall|j: u32| j != id && #[trigger] pool2.is_free(j) implies pool.is_free(j) by {
            let k = choose|k: int| 0 <= k < pool2.free_ids().len() && pool2.free_ids()[k].0 == j;
            assert(f[k].0 == j);
        }
        if pool2.is_free(id) {
            let k = choose|k: int| 0 <= k < pool2.free_ids().len() && pool2.free_ids()[k].0 == id;
            assert(f[k] == f[f.len() - 1]);
        }
    } else {
        assert forall|j: u32| #[trigger] pool2.is_free(j) implies pool.is_free(j) by {}
        if pool2.is_free(id) {
            let k = choose|k: int| 0 <= k < pool2.free_ids().len() && pool2.free_ids()[k].0 == id;
            assert(f[k].0 == id);
        }
    }
}

/// The level named by `id` was found or created at `price` in a side that
/// went from `s` to `s2`, and `qty` was added to it.
pub open spec fn level_added(
    s: Seq<PriceLevel>,
    s2: Seq<PriceLevel>,
    pool: &LevelPool,
    pool2: &LevelPool,
    price: Price,
    qty: Qty,
    id: LevelId,
) -> bool {
    let k = price_index(s, price);
    if k >= 0 {
        &&& id == s[k].level_idx
        &&& s2 == s
        &&& pool2.levels() == pool.levels().update(
            id.0 as int,
            Level { price, size: Qty((pool.levels()[id.0 as int].size.0 + qty.0) as u32) },
        )
        &&& pool2.free_ids() == pool.free_ids()
    } else {
        &&& id == pool.next_id()
        &&& s2 == s.insert(count_below(s, price.0) as int, PriceLevel { price, level_idx: id })
        &&& pool2.levels() == pool.levels_after_alloc().update(
            id.0 as int,
            Level { price, size: qty },
        )
        &&& pool2.free_ids() == pool.free_after_alloc()
    }
}

/// Room to add `qty` at `price` without overflowing the level's size.
pub open spec fn room_at(s: Seq<PriceLevel>, pool: &LevelPool, price: Price, qty: Qty) -> bool {
    price_index(s, price) >= 0 ==> pool.levels()[s[price_index(
        s,
        price,
    )].level_idx.0 as int].size.0 + qty.0 <= u32::MAX
}

/// Finds the level priced `price` scanning from the most aggressive end, or
/// creates it at its sorted place, then adds `qty` to it; returns its handle.
fn add_to_side(levels: &mut SortedLevels, price: Price, qty: Qty, pool: &mut LevelPool) -> (r:
    LevelId)
    requires
        old(pool).wf(),
        side_wf(old(levels)@, price.0 > 0, old(pool)),
        old(pool).can_alloc(),
        qty.0 > 0,
        room_at(old(levels)@, old(pool), price, qty),
    ensures
        level_added(old(levels)@, final(levels)@, old(pool), final(pool), price, qty, r),
        side_wf(final(levels)@, price.0 > 0, final(pool)),
        final(pool).wf(),
        pool_frame(old(pool), final(pool), r.0),
        live(final(pool), r.0),
        price_index(old(levels)@, price) < 0 ==> !live(old(pool), r.0),
        forall|j: u32| j != r.0 && #[trigger] live(final(pool), j) ==> live(old(pool), j),
{
    let ghost s = levels@;
    let mut i: usize = levels.len();
    let mut scanning = true;
    while scanning
        invariant
            levels@ == s,
            i <= s.len(),
            forall|j: int| i <= j < s.len() ==> s[j].price.0 > price.0,
            !scanning ==> i == 0 || s[i - 1].price.0 <= price.0,
        decreases i + if scanning { 1int } else { 0int },
    {
        if i == 0 {
            scanning = false;
        } else if levels.get(i - 1).price.0 > price.0 {
            i = i - 1;
        } else {
            scanning = false;
        }
    }
    proof {
        lemma_price_index(s, price);
    }
    if i > 0 && levels.get(i - 1).price.0 == price.0 {
        let id = levels.get(i - 1).level_idx;
        proof {
            lemma_price_index_unique(s, price, i - 1);
        }
        match pool.get_mut(id) {
            Some(l) => l.incr(qty),
            None => {},
        }
        proof {
            let pool2 = *pool;
            assert forall|j: u32| j != id.0 && #[trigger] pool2.is_free(j) implies old(pool).is_free(j) by {}
            assert forall|k: int| 0 <= k < s.len() implies {
                &&& live(&pool2, #[trigger] s[k].level_idx.0)
                &&& pool2.levels()[s[k].level_idx.0 as int].price == s[k].price
                &&& pool2.levels()[s[k].level_idx.0 as int].size.0 > 0
            } by {
                if pool2.is_free(s[k].level_idx.0) {
                    assert(old(pool).is_free(s[k].level_idx.0));
                }
            }
        }
        id
    } else {
        proof {
            assert forall|j: int| 0 <= j < i implies s[j].price.0 < price.0 by {
                if j < i - 1 {
                    assert(s[j].price.0 < s[i - 1].price.0);
                }
            }
            lemma_count_below(s, price.0, i as int);
        }
        let id = pool.alloc_level();
        pool.set_level(id, Level::new(price, Qty(0)));
        levels.insert(i, PriceLevel::new(price, id));
        match pool.get_mut(id) {
            Some(l) => l.incr(qty),
            None => {},
        }
        proof {
            let pool2 = *pool;
            assert(pool2.levels() == old(pool).levels_after_alloc().update(
                id.0 as int,
                Level { price, size: qty },
            ));
            lemma_alloc_frame(old(pool), &pool2, Level { price, size: qty });
            assert forall|j: u32| j != id.0 && #[trigger] live(&pool2, j) implies live(old(pool), j) by {
                let f = old(pool).free_ids();
                if old(pool).is_free(j) {
                    let kk = choose|kk: int| 0 <= kk < f.len() && f[kk].0 == j;
                    assert(pool2.free_ids()[kk] == f[kk]);
                }
            }
            let s2 = levels@;
            assert forall|k: int| 0 <= k < s.len() implies s[k].level_idx.0 != id.0 by {}
            lemma_side_frame(s, price.0 > 0, old(pool), &pool2, id.0);
            assert forall|k: int| 0 <= k < s2.len() implies {
                &&& (#[trigger] s2[k].price.0 > 0) == (price.0 > 0)
                &&& live(&pool2, s2[k].level_idx.0)
                &&& pool2.levels()[s2[k].level_idx.0 as int].price == s2[k].price
                &&& pool2.levels()[s2[k].level_idx.0 as int].size.0 > 0
            } by {
                if k < i {
                    assert(s2[k] == s[k]);
                } else if k > i {
                    assert(s2[k] == s[k - 1]);
                }
            }
            assert forall|a: int, b: int| 0 <= a < b < s2.len() implies s2[a].price.0
                < s2[b].price.0 by {
                if b < i {
                } else if a < i && b == i {
                } else if a < i {
                    assert(s2[b] == s[b - 1]);
                } else if a == i {
                    assert(s2[b] == s[b - 1]);
                } else {
                    assert(s2[a] == s[a - 1]);
                    assert(s2[b] == s[b - 1]);
                }
            }
        }
        id
    }
}

/// The levels of a book, one sequence per side.
#[derive(Clone)]
pub struct OrderBook {
    pub bids: SortedLevels,
    pub asks: SortedLevels,
}

impl Default for OrderBook {
    fn default() -> (r: Self)
        ensures
            r.bids@ == Seq::<PriceLevel>::empty(),
            r.asks@ == Seq::<PriceLevel>::empty(),
    {
        OrderBook::new()
    }
}

impl OrderBook {
    /// The bid side when `bid`, else the ask side.
    pub open spec fn side(&self, bid: bool) -> Seq<PriceLevel> {
        if bid {
            self.bids@
        } else {
            self.asks@
        }
    }

    /// Both sides are well formed over `pool`.
    pub open spec fn wf(&self, pool: &LevelPool) -> bool {
        &&& side_wf(self.bids@, true, pool)
        &&& side_wf(self.asks@, false, pool)
    }

    /// The level `id` is listed on the side its price belongs to.
    pub open spec fn lists(&self, pool: &LevelPool, id: u32) -> bool {
        let p = pool.levels()[id as int].price;
        let s = self.side(p.0 > 0);
        &&& price_index(s, p) >= 0
        &&& s[price_index(s, p)].level_idx.0 == id
    }

    /// Creates a book with no levels.
    pub fn new() -> (r: Self)
        ensures
            r.bids@ == Seq::<PriceLevel>::empty(),
            r.asks@ == Seq::<PriceLevel>::empty(),
    {
        OrderBook { bids: SortedLevels::new(), asks: SortedLevels::new() }
    }

    /// Rests `qty` at `price` for `order`: finds or creates the level on the
    /// side the price's sign selects, adds `qty` to it, and binds the order
    /// to it.
    pub fn add_order(&mut self, order: &mut Order, price: Price, qty: Qty, level_pool: &mut LevelPool)
        requires
            old(level_pool).wf(),
            old(self).wf(old(level_pool)),
            old(level_pool).can_alloc(),
            qty.0 > 0,
            room_at(old(self).side(price.0 > 0), old(level_pool), price, qty),
        ensures
            level_added(
                old(self).side(price.0 > 0),
                final(self).side(price.0 > 0),
                old(level_pool),
                final(level_pool),
                price,
                qty,
                final(order).level_id,
            ),
            final(self).side(price.0 <= 0) == old(self).side(price.0 <= 0),
            *final(order) == (Order { level_id: final(order).level_id, ..*old(order) }),
            final(level_pool).wf(),
            final(self).wf(final(level_pool)),
            pool_frame(old(level_pool), final(level_pool), final(order).level_id.0),
            live(final(level_pool), final(order).level_id.0),
            price_index(old(self).side(price.0 > 0), price) < 0 ==> !live(
                old(level_pool),
                final(order).level_id.0,
            ),
            forall|j: u32|
                j != final(order).level_id.0 && #[trigger] live(final(level_pool), j) ==> live(
                    old(level_pool),
                    j,
                ),
    {
        let ghost pool0 = *level_pool;
        let id = if price.is_bid() {
            add_to_side(&mut self.bids, price, qty, level_pool)
        } else {
            add_to_side(&mut self.asks, price, qty, level_pool)
        };
        order.set_level_id(id);
        proof {
            let bid = price.0 > 0;
            let s = old(self).side(bid);
            let o = old(self).side(!bid);
            lemma_price_index(s, price);
            assert forall|j: int| 0 <= j < o.len() implies o[j].level_idx.0 != id.0 by {
                if price_index(s, price) >= 0 {
                    let k = price_index(s, price);
                    assert(s[k].level_idx == id);
                    assert(pool0.levels()[id.0 as int].price == price);
                }
            }
            lemma_side_frame(o, !bid, &pool0, level_pool, id.0);
        }
    }

    /// Takes `qty` from the aggregate size of the order's level.
    pub fn reduce_order(&mut self, order: &mut Order, qty: Qty, level_pool: &mut LevelPool)
        requires
            (old(order).level_id.0 as int) < old(level_pool).levels().len(),
            qty.0 <= old(level_pool).levels()[old(order).level_id.0 as int].size.0,
        ensures
            final(level_pool).levels() == old(level_pool).levels().update(
                old(order).level_id.0 as int,
                Level {
                    size: Qty(
                        (old(level_pool).levels()[old(order).level_id.0 as int].size.0
                            - qty.0) as u32,
                    ),
                    ..old(level_pool).levels()[old(order).level_id.0 as int]
                },
            ),
            final(level_pool).free_ids() == old(level_pool).free_ids(),
            *final(self) == *old(self),
            *final(order) == *old(order),
    {
        match level_pool.get_mut(order.level_id) {
            Some(l) => l.decr(qty),
            None => {},
        }
    }

    /// Takes the order's quantity from its level; a level left empty leaves
    /// its side and its handle returns to the pool.
    pub fn remove_order(&mut self, order: &mut Order, level_pool: &mut LevelPool)
        requires
            old(level_pool).wf(),
            old(self).wf(old(level_pool)),
            live(old(level_pool), old(order).level_id.0),
            old(self).lists(old(level_pool), old(order).level_id.0),
            old(order).qty.0 <= old(level_pool).levels()[old(order).level_id.0 as int].size.0,
        ensures
            ({
                let id = old(order).level_id;
                let lv = old(level_pool).levels()[id.0 as int];
                let bid = lv.price.0 > 0;
                let s = old(self).side(bid);
                let left = lv.size.0 - old(order).qty.0;
                &&& final(level_pool).levels() == old(level_pool).levels().update(
                    id.0 as int,
                    Level { price: lv.price, size: Qty(left as u32) },
                )
                &&& final(self).side(!bid) == old(self).side(!bid)
                &&& left > 0 ==> final(self).side(bid) == s
                &&& left > 0 ==> final(level_pool).free_ids() == old(level_pool).free_ids()
                &&& left == 0 ==> final(self).side(bid) == s.remove(price_index(s, lv.price))
                &&& left == 0 ==> final(level_pool).free_ids() == old(level_pool).free_ids().push(id)
                &&& left > 0 ==> final(self).wf(final(level_pool))
                &&& left == 0 ==> final(self).wf(final(level_pool))
            }),
            *final(order) == *old(order),
            final(level_pool).wf(),
            pool_frame(old(level_pool), final(level_pool), old(order).level_id.0),
    {
        let ghost pool0 = *level_pool;
        let ghost id = order.level_id.0;
        let ghost lv = pool0.levels()[id as int];
        let ghost bid = lv.price.0 > 0;
        let ghost s = old(self).side(bid);
        let ghost o = old(self).side(!bid);
        let ghost k = price_index(s, lv.price);
        proof {
            lemma_price_index(s, lv.price);
            assert forall|j: int| 0 <= j < o.len() implies o[j].level_idx.0 != id by {
                assert(pool0.levels()[o[j].level_idx.0 as int].price == o[j].price);
            }
        }
        match level_pool.get_mut(order.level_id) {
            Some(lvl) => {
                lvl.decr(order.qty);
                if lvl.is_empty() {
                    let p = lvl.price;
                    if p.is_bid() {
                        self.bids.remove(p);
                    } else {
                        self.asks.remove(p);
                    }
                    level_pool.free(order.level_id);
                    proof {
                        lemma_filter_one(s, k);
                        let s2 = s.remove(k);
                        assert forall|j: int| 0 <= j < s2.len() implies s2[j].level_idx.0 != id by {
                            let jj = if j < k { j } else { j + 1 };
                            assert(s2[j] == s[jj]);
                            assert(pool0.levels()[s[jj].level_idx.0 as int].price == s[jj].price);
                        }
                        assert(side_wf(s2, bid, &pool0)) by {
                            assert forall|a: int, b: int| 0 <= a < b < s2.len() implies s2[a].price.0
                                < s2[b].price.0 by {
                                let aa = if a < k { a } else { a + 1 };
                                let bb = if b < k { b } else { b + 1 };
                                assert(s2[a] == s[aa] && s2[b] == s[bb]);
                            }
                            assert forall|j: int| 0 <= j < s2.len() implies #[trigger] s2[j] == s[if j < k { j } else { j + 1 }] by {}
                        }
                        let pool1 = *level_pool;
                        assert forall|j: u32| j != id && #[trigger] pool1.is_free(j) implies pool0.is_free(j) by {
                            let kk = choose|kk: int| 0 <= kk < pool1.free_ids().len() && pool1.free_ids()[kk].0 == j;
                            assert(pool0.free_ids()[kk].0 == j);
                        }
                        lemma_side_frame(s2, bid, &pool0, &pool1, id);
                        lemma_side_frame(o, !bid, &pool0, &pool1, id);
                        assert forall|kk: int| 0 <= kk < pool0.free_ids().len() implies pool0.free_ids()[kk] != order.level_id by {}
                    }
                } else {
                    proof {
                        let pool1 = *level_pool;
                        assert forall|j: u32| #[trigger] pool1.is_free(j) implies pool0.is_free(j) by {}
                        assert forall|j: int| 0 <= j < s.len() implies {
                            &&& live(&pool1, #[trigger] s[j].level_idx.0)
                            &&& pool1.levels()[s[j].level_idx.0 as int].price == s[j].price
                            &&& pool1.levels()[s[j].level_idx.0 as int].size.0 > 0
                        } by {
                            if pool1.is_free(s[j].level_idx.0) {
                                assert(pool0.is_free(s[j].level_idx.0));
                            }
                        }
                        lemma_side_frame(o, !bid, &pool0, &pool1, id);
                    }
                }
            },
            None => {},
        }
    }
}

} // verus!
