//! How each command of the manager moves its state: one predicate per step
//! relating the state before and after, and the lemmas that the step keeps
//! the invariant and moves the model as the model's command says.
use vstd::prelude::*;
use crate::level::{
    count_below, lemma_count_below_len, lemma_price_index, lemma_price_index_unique, price_index,
    Level, PriceLevel,
};
use crate::model::{side_add, side_reduce, side_take, BookModel, Depth, Resting};
use crate::order::{grown, Order};
use crate::orderbook::{
    level_added, lemma_side_frame, live, pool_frame, room_at, side_wf, OrderBook,
};
use crate::orderbook_manager::{
    depth, lemma_depth_below, lemma_depth_index, qty_at, share, OrderBookManager,
};
use crate::pool::LevelPool;
use crate::price::Price;
use crate::quantity::Qty;
use crate::utils::MAX_BOOKS;

verus! {

proof fn lemma_qty_at_update(s: Seq<Option<Order>>, i: int, v: Option<Order>, id: u32)
    requires
        0 <= i < s.len(),
    ensures
        qty_at(s.update(i, v), id) == qty_at(s, id) - share(s[i], id) + share(v, id),
    decreases s.len(),
{
    let t = s.update(i, v);
    if i == s.len() - 1 {
        assert(t.drop_last() == s.drop_last());
    } else {
        assert(t.drop_last() == s.drop_last().update(i, v));
        lemma_qty_at_update(s.drop_last(), i, v, id);
    }
}

proof fn lemma_qty_at_grown(s: Seq<Option<Order>>, n: int, id: u32)
    ensures
        qty_at(grown(s, n), id) == qty_at(s, id),
    decreases n - s.len(),
{
    if n > s.len() {
        let g = grown(s, n);
        assert(g.drop_last() == grown(s, n - 1));
        lemma_qty_at_grown(s, n - 1, id);
    }
}

proof fn lemma_qty_at_share(s: Seq<Option<Order>>, i: int, id: u32)
    requires
        0 <= i < s.len(),
    ensures
        0 <= share(s[i], id) <= qty_at(s, id),
    decreases s.len(),
{
    lemma_qty_at_nonneg(s.drop_last(), id);
    if i < s.len() - 1 {
        assert(s.drop_last()[i] == s[i]);
        lemma_qty_at_share(s.drop_last(), i, id);
    }
}

proof fn lemma_qty_at_nonneg(s: Seq<Option<Order>>, id: u32)
    ensures
        qty_at(s, id) >= 0,
    decreases s.len(),
{
    if s.len() > 0 {
        lemma_qty_at_nonneg(s.drop_last(), id);
    }
}

proof fn lemma_qty_at_none(s: Seq<Option<Order>>, id: u32)
    requires
        forall|i: int| 0 <= i < s.len() ==> share(#[trigger] s[i], id) == 0,
    ensures
        qty_at(s, id) == 0,
    decreases s.len(),
{
    if s.len() > 0 {
        assert forall|i: int| 0 <= i < s.len() - 1 implies share(#[trigger] s.drop_last()[i], id)
            == 0 by {
            assert(s.drop_last()[i] == s[i]);
        }
        lemma_qty_at_none(s.drop_last(), id);
    }
}

/// A side that does not name `id` reads the same from a pool that changed
/// only at `id`.
proof fn lemma_depth_frame(
    s: Seq<PriceLevel>,
    bid: bool,
    pool: &LevelPool,
    pool2: &LevelPool,
    id: u32,
)
    requires
        side_wf(s, bid, pool),
        pool_frame(pool, pool2, id),
        forall|i: int| 0 <= i < s.len() ==> s[i].level_idx.0 != id,
    ensures
        depth(s, pool2) == depth(s, pool),
{
    assert forall|i: int| 0 <= i < s.len() implies #[trigger] depth(s, pool2)[i] == depth(
        s,
        pool,
    )[i] by {
        assert(s[i].level_idx.0 != id);
    }
    assert(depth(s, pool2) =~= depth(s, pool));
}

/// In an ascending side, an entry at another index than `k` names another
/// level than entry `k`.
proof fn lemma_side_unique(s: Seq<PriceLevel>, bid: bool, pool: &LevelPool, k: int, i: int)
    requires
        side_wf(s, bid, pool),
        0 <= k < s.len(),
        0 <= i < s.len(),
        i != k,
    ensures
        s[i].level_idx != s[k].level_idx,
{
    if s[i].level_idx == s[k].level_idx {
        assert(pool.levels()[s[i].level_idx.0 as int].price == s[i].price);
        assert(pool.levels()[s[k].level_idx.0 as int].price == s[k].price);
    }
}

/// The book `b` reads as `book` would (an absent book reads as an empty one).
pub open spec fn book_or_empty(m: &OrderBookManager, b: int, book: OrderBook) -> bool {
    if m.has_book(b) {
        book == m.book(b)
    } else {
        book.bids@ == Seq::<PriceLevel>::empty() && book.asks@ == Seq::<PriceLevel>::empty()
    }
}

/// `m1` is `m0` after order `oid` of `qty` shares was rested at `price` in
/// book `b`, which read as `ob` before and as `nb` after.
pub open spec fn add_step(
    m0: &OrderBookManager,
    m1: &OrderBookManager,
    oid: u32,
    b: int,
    price: Price,
    qty: Qty,
    ob: OrderBook,
    nb: OrderBook,
    order: Order,
) -> bool {
    &&& m0.wf()
    &&& 0 <= b < MAX_BOOKS
    &&& qty.0 > 0
    &&& book_or_empty(m0, b, ob)
    &&& room_at(ob.side(price.0 > 0), &m0.level_pool, price, qty)
    &&& level_added(
        ob.side(price.0 > 0),
        nb.side(price.0 > 0),
        &m0.level_pool,
        &m1.level_pool,
        price,
        qty,
        order.level_id,
    )
    &&& nb.side(price.0 <= 0) == ob.side(price.0 <= 0)
    &&& m1.level_pool.wf()
    &&& nb.wf(&m1.level_pool)
    &&& pool_frame(&m0.level_pool, &m1.level_pool, order.level_id.0)
    &&& live(&m1.level_pool, order.level_id.0)
    &&& price_index(ob.side(price.0 > 0), price) < 0 ==> !live(&m0.level_pool, order.level_id.0)
    &&& forall|j: u32|
        j != order.level_id.0 && #[trigger] live(&m1.level_pool, j) ==> live(&m0.level_pool, j)
    &&& m1.books@ == m0.books@.update(b, Some(nb))
    &&& m1.oid_map.slots() == grown(m0.oid_map.slots(), oid + 1).update(oid as int, Some(order))
    &&& order.book_id.0 == b
    &&& order.qty == qty
    &&& m1.owner@ == m0.owner@.insert(order.level_id.0, b as u16)
}

/// Resting an order keeps every book well formed and owned.
proof fn lemma_add_books(
    m0: &OrderBookManager,
    m1: &OrderBookManager,
    oid: u32,
    b: int,
    price: Price,
    qty: Qty,
    ob: OrderBook,
    nb: OrderBook,
    order: Order,
)
    requires
        add_step(m0, m1, oid, b, price, qty, ob, nb, order),
    ensures
        m1.level_pool.wf(),
        m1.books_wf(),
{
    let bid = price.0 > 0;
    let id = order.level_id.0;
    let s = ob.side(bid);
    let s2 = nb.side(bid);
    let k = price_index(s, price);
    let pool0 = &m0.level_pool;
    let pool1 = &m1.level_pool;
    let g = grown(m0.oid_map.slots(), oid + 1);
    lemma_price_index(s, price);
    lemma_depth_index(s, pool0, price);
    lemma_depth_below(s, pool0, price.0);
    lemma_count_below_len(s, price.0);
    if k >= 0 {
        assert(pool0.levels()[id as int].price == price);
    }
    // books other than `b` do not name the level
    assert forall|b2: int, bid2: bool, i: int|
        0 <= b2 < MAX_BOOKS && b2 != b && m0.has_book(b2) && 0 <= i < m0.book(b2).side(bid2).len()
            implies #[trigger] m0.book(b2).side(bid2)[i].level_idx.0 != id by {
        let l = m0.book(b2).side(bid2)[i].level_idx.0;
        assert(m0.book(b2).wf(pool0));
        assert(live(pool0, l) && m0.owner@[l] == b2);
        if k >= 0 {
            assert(m0.owner@[id] == b);
        }
    }
    // the other side of `b` does not name the level
    let o = ob.side(!bid);
    assert forall|i: int| 0 <= i < o.len() implies o[i].level_idx.0 != id by {
        assert(live(pool0, o[i].level_idx.0));
        assert(pool0.levels()[o[i].level_idx.0 as int].price == o[i].price);
    }
    // books_wf
    assert forall|b2: int| 0 <= b2 < MAX_BOOKS && #[trigger] m1.has_book(b2) implies m1.book(
        b2,
    ).wf(pool1) by {
        if b2 != b {
            assert(m1.books@[b2] == m0.books@[b2]);
            assert(m0.has_book(b2));
            assert(m0.book(b2).wf(pool0));
            let bk = m0.book(b2);
            assert forall|i: int| 0 <= i < bk.bids@.len() implies bk.bids@[i].level_idx.0 != id by {
                assert(bk.side(true)[i] == bk.bids@[i]);
            }
            assert forall|i: int| 0 <= i < bk.asks@.len() implies bk.asks@[i].level_idx.0 != id by {
                assert(bk.side(false)[i] == bk.asks@[i]);
            }
            lemma_side_frame(bk.bids@, true, pool0, pool1, id);
            lemma_side_frame(bk.asks@, false, pool0, pool1, id);
        }
    }
    assert forall|b2: int, bid2: bool, i: int|
        0 <= b2 < MAX_BOOKS && m1.has_book(b2) && 0 <= i < m1.book(b2).side(bid2).len()
            implies m1.owner@.contains_key(#[trigger] m1.book(b2).side(bid2)[i].level_idx.0)
            && m1.owner@[m1.book(b2).side(bid2)[i].level_idx.0] == b2 by {
        if b2 != b {
            assert(m1.book(b2) == m0.book(b2));
        } else if bid2 == bid && k < 0 {
            let c = count_below(s, price.0) as int;
            if i < c {
                assert(s2[i] == s[i]);
            } else if i > c {
                assert(s2[i] == s[i - 1]);
            }
        }
    }
}

/// Resting an order keeps every level in use listed by its owner.
proof fn lemma_add_listed(
    m0: &OrderBookManager,
    m1: &OrderBookManager,
    oid: u32,
    b: int,
    price: Price,
    qty: Qty,
    ob: OrderBook,
    nb: OrderBook,
    order: Order,
)
    requires
        add_step(m0, m1, oid, b, price, qty, ob, nb, order),
    ensures
        m1.levels_listed(),
{
    let bid = price.0 > 0;
    let id = order.level_id.0;
    let s = ob.side(bid);
    let s2 = nb.side(bid);
    let k = price_index(s, price);
    let pool0 = &m0.level_pool;
    let pool1 = &m1.level_pool;
    let g = grown(m0.oid_map.slots(), oid + 1);
    lemma_price_index(s, price);
    lemma_depth_index(s, pool0, price);
    lemma_depth_below(s, pool0, price.0);
    lemma_count_below_len(s, price.0);
    if k >= 0 {
        assert(pool0.levels()[id as int].price == price);
    }
    // levels_listed
    assert forall|j: u32| #[trigger] live(pool1, j) implies {
        &&& m1.owner@.contains_key(j)
        &&& (m1.owner@[j] as int) < MAX_BOOKS
        &&& m1.has_book(m1.owner@[j] as int)
        &&& m1.book(m1.owner@[j] as int).lists(pool1, j)
    } by {
        if j == id {
            if k < 0 {
                let c = count_below(s, price.0) as int;
                lemma_price_index_unique(s2, price, c);
            }
        } else {
            assert(live(pool0, j));
            let b2 = m0.owner@[j] as int;
            let pj = pool0.levels()[j as int].price;
            assert(pool1.levels()[j as int] == pool0.levels()[j as int]);
            if b2 == b && (pj.0 > 0) == bid && k < 0 {
                let c = count_below(s, price.0) as int;
                assert(m0.has_book(b));
                assert(ob == m0.book(b));
                assert(m0.book(b).lists(pool0, j));
                assert(ob.side(pj.0 > 0) == s);
                let kj = price_index(s, pj);
                lemma_price_index(s, pj);
                assert(0 <= kj < s.len());
                let kj2 = if kj < c { kj } else { kj + 1 };
                assert(s2[kj2] == s[kj]);
                lemma_price_index_unique(s2, pj, kj2);
            }
        }
    }
}

/// Resting an order keeps orders placed and levels covering them.
proof fn lemma_add_orders(
    m0: &OrderBookManager,
    m1: &OrderBookManager,
    oid: u32,
    b: int,
    price: Price,
    qty: Qty,
    ob: OrderBook,
    nb: OrderBook,
    order: Order,
)
    requires
        add_step(m0, m1, oid, b, price, qty, ob, nb, order),
    ensures
        m1.oid_map.slots().len() <= u32::MAX + 1,
        m1.orders_placed(),
        m1.levels_cover(),
        m0.exact() && !m0.model().orders.contains_key(oid) ==> m1.exact(),
{
    let bid = price.0 > 0;
    let id = order.level_id.0;
    let s = ob.side(bid);
    let s2 = nb.side(bid);
    let k = price_index(s, price);
    let pool0 = &m0.level_pool;
    let pool1 = &m1.level_pool;
    let g = grown(m0.oid_map.slots(), oid + 1);
    lemma_price_index(s, price);
    lemma_depth_index(s, pool0, price);
    lemma_depth_below(s, pool0, price.0);
    lemma_count_below_len(s, price.0);
    if k >= 0 {
        assert(pool0.levels()[id as int].price == price);
    }
    // orders
    assert(g.len() > oid);
    assert forall|kk: u32| #[trigger] m1.oid_map.orders().contains_key(kk) implies {
        let o1 = m1.oid_map.orders()[kk];
        &&& o1.qty.0 > 0
        &&& live(pool1, o1.level_id.0)
        &&& m1.owner@[o1.level_id.0] == o1.book_id.0
    } by {
        if kk != oid {
            assert(m1.oid_map.slots()[kk as int] == m0.oid_map.slots()[kk as int]);
            assert(m0.oid_map.orders().contains_key(kk));
            let l = m0.oid_map.orders()[kk].level_id.0;
            if k >= 0 {
                assert(m0.owner@[id] == b);
            }
            if pool1.is_free(l) && l != id {
                assert(pool0.is_free(l));
            }
        }
    }
    // sums
    assert forall|j: u32| #[trigger] live(pool1, j) implies qty_at(m1.oid_map.slots(), j) <= pool1.levels()[j as int].size.0
        && (m0.exact() && !m0.model().orders.contains_key(oid) ==> qty_at(m1.oid_map.slots(), j) == pool1.levels()[j as int].size.0) by {
        lemma_qty_at_grown(m0.oid_map.slots(), oid + 1, j);
        lemma_qty_at_update(g, oid as int, Some(order), j);
        lemma_qty_at_share(g, oid as int, j);
        if (oid as int) < m0.oid_map.slots().len() {
            assert(g[oid as int] == m0.oid_map.slots()[oid as int]);
        }
        if j == id && k < 0 {
            assert forall|i: int| 0 <= i < m0.oid_map.slots().len() implies share(
                #[trigger] m0.oid_map.slots()[i],
                j,
            ) == 0 by {
                if m0.oid_map.slots()[i] is Some {
                    assert(m0.oid_map.orders().contains_key(i as u32));
                }
            }
            lemma_qty_at_none(m0.oid_map.slots(), j);
        } else if j != id {
            assert(live(pool0, j));
        }
    }
}

/// Resting an order moves the model as `Model::add` says.
proof fn lemma_add_model(
    m0: &OrderBookManager,
    m1: &OrderBookManager,
    oid: u32,
    b: int,
    price: Price,
    qty: Qty,
    ob: OrderBook,
    nb: OrderBook,
    order: Order,
)
    requires
        add_step(m0, m1, oid, b, price, qty, ob, nb, order),
    ensures
        m1.model() == m0.model().add(oid, b, qty.0 as int, price.0 as int),
{
    let bid = price.0 > 0;
    let id = order.level_id.0;
    let s = ob.side(bid);
    let s2 = nb.side(bid);
    let k = price_index(s, price);
    let pool0 = &m0.level_pool;
    let pool1 = &m1.level_pool;
    let g = grown(m0.oid_map.slots(), oid + 1);
    lemma_price_index(s, price);
    lemma_depth_index(s, pool0, price);
    lemma_depth_below(s, pool0, price.0);
    lemma_count_below_len(s, price.0);
    if k >= 0 {
        assert(pool0.levels()[id as int].price == price);
    }
    // books other than `b` do not name the level
    assert forall|b2: int, bid2: bool, i: int|
        0 <= b2 < MAX_BOOKS && b2 != b && m0.has_book(b2) && 0 <= i < m0.book(b2).side(bid2).len()
            implies #[trigger] m0.book(b2).side(bid2)[i].level_idx.0 != id by {
        let l = m0.book(b2).side(bid2)[i].level_idx.0;
        assert(m0.book(b2).wf(pool0));
        assert(live(pool0, l) && m0.owner@[l] == b2);
        if k >= 0 {
            assert(m0.owner@[id] == b);
        }
    }
    // the other side of `b` does not name the level
    let o = ob.side(!bid);
    assert forall|i: int| 0 <= i < o.len() implies o[i].level_idx.0 != id by {
        assert(live(pool0, o[i].level_idx.0));
        assert(pool0.levels()[o[i].level_idx.0 as int].price == o[i].price);
    }
    // model: books
    let mm = m0.model().add(oid, b, qty.0 as int, price.0 as int);
    assert forall|b2: int| 0 <= b2 < MAX_BOOKS implies #[trigger] m1.model().books[b2]
        == mm.books[b2] by {
        if b2 != b {
            assert(m1.books@[b2] == m0.books@[b2]);
            if m0.has_book(b2) {
                assert(m0.book(b2).wf(pool0));
                let bk = m0.book(b2);
                assert forall|i: int| 0 <= i < bk.bids@.len() implies bk.bids@[i].level_idx.0 != id by {
                    assert(bk.side(true)[i] == bk.bids@[i]);
                }
                assert forall|i: int| 0 <= i < bk.asks@.len() implies bk.asks@[i].level_idx.0 != id by {
                    assert(bk.side(false)[i] == bk.asks@[i]);
                }
                lemma_depth_frame(bk.bids@, true, pool0, pool1, id);
                lemma_depth_frame(bk.asks@, false, pool0, pool1, id);
            }
        } else {
            lemma_depth_frame(o, !bid, pool0, pool1, id);
            assert(m0.model().side(b, bid) == depth(s, pool0));
            if k >= 0 {
                assert forall|i: int| 0 <= i < s.len() implies #[trigger] depth(s2, pool1)[i]
                    == side_add(depth(s, pool0), price.0 as int, qty.0 as int)[i] by {
                    if i != k {
                        lemma_side_unique(s, bid, pool0, k, i);
                    }
                }
                assert(depth(s2, pool1) =~= side_add(depth(s, pool0), price.0 as int, qty.0 as int));
            } else {
                let c = count_below(s, price.0) as int;
                assert forall|i: int| 0 <= i < s2.len() implies #[trigger] depth(s2, pool1)[i]
                    == side_add(depth(s, pool0), price.0 as int, qty.0 as int)[i] by {
                    if i < c {
                        assert(s2[i] == s[i]);
                    } else if i > c {
                        assert(s2[i] == s[i - 1]);
                    }
                }
                assert(depth(s2, pool1) =~= side_add(depth(s, pool0), price.0 as int, qty.0 as int));
            }
            if bid {
                assert(m1.model().books[b2] == BookModel { bids: depth(s2, pool1), asks: depth(o, pool0) });
            } else {
                assert(m1.model().books[b2] == BookModel { asks: depth(s2, pool1), bids: depth(o, pool0) });
            }
        }
    }
    assert(m1.model().books =~= mm.books);
    // model: orders
    assert forall|kk: u32| #[trigger] m1.model().orders.contains_key(kk) == mm.orders.contains_key(kk) by {
        if kk != oid {
            if (kk as int) < m0.oid_map.slots().len() {
                assert(m1.oid_map.slots()[kk as int] == m0.oid_map.slots()[kk as int]);
            } else if (kk as int) < m1.oid_map.slots().len() {
                assert(m1.oid_map.slots()[kk as int] == g[kk as int]);
            }
        }
    }
    assert forall|kk: u32| #[trigger] m1.model().orders.contains_key(kk) implies m1.model().orders[kk] == mm.orders[kk] by {
        if kk != oid {
            assert(m1.oid_map.slots()[kk as int] == m0.oid_map.slots()[kk as int]);
            let l = m0.oid_map.orders()[kk].level_id.0;
            assert(m0.oid_map.orders().contains_key(kk));
            if l == id {
                assert(k >= 0);
            }
        }
    }
    assert(m1.model().orders =~= mm.orders);
}

/// Resting an order keeps the invariant and moves the model as `Model::add` says.
pub(crate) proof fn lemma_add_step(
    m0: &OrderBookManager,
    m1: &OrderBookManager,
    oid: u32,
    b: int,
    price: Price,
    qty: Qty,
    ob: OrderBook,
    nb: OrderBook,
    order: Order,
)
    requires
        add_step(m0, m1, oid, b, price, qty, ob, nb, order),
    ensures
        m1.wf(),
        m1.model() == m0.model().add(oid, b, qty.0 as int, price.0 as int),
        m0.exact() && !m0.model().orders.contains_key(oid) ==> m1.exact(),
{
    lemma_add_books(m0, m1, oid, b, price, qty, ob, nb, order);
    lemma_add_listed(m0, m1, oid, b, price, qty, ob, nb, order);
    lemma_add_orders(m0, m1, oid, b, price, qty, ob, nb, order);
    lemma_add_model(m0, m1, oid, b, price, qty, ob, nb, order);
}

/// `m1` is `m0` after order `oid`, which read as `order`, left its level in
/// its book, which read as `ob` before and as `nb` after.
pub open spec fn remove_step(
    m0: &OrderBookManager,
    m1: &OrderBookManager,
    oid: u32,
    ob: OrderBook,
    nb: OrderBook,
    order: Order,
) -> bool {
    let lv = m0.level_pool.levels()[order.level_id.0 as int];
    let bid = lv.price.0 > 0;
    let s = ob.side(bid);
    let left = lv.size.0 - order.qty.0;
    &&& m0.wf()
    &&& m0.oid_map.slots()[oid as int] == Some(order)
    &&& (oid as int) < m0.oid_map.slots().len()
    &&& ob == m0.book(order.book_id.0 as int)
    &&& m1.level_pool.levels() == m0.level_pool.levels().update(
        order.level_id.0 as int,
        Level { price: lv.price, size: Qty(left as u32) },
    )
    &&& nb.side(!bid) == ob.side(!bid)
    &&& left > 0 ==> nb.side(bid) == s
    &&& left > 0 ==> m1.level_pool.free_ids() == m0.level_pool.free_ids()
    &&& left == 0 ==> nb.side(bid) == s.remove(price_index(s, lv.price))
    &&& left == 0 ==> m1.level_pool.free_ids() == m0.level_pool.free_ids().push(order.level_id)
    &&& nb.wf(&m1.level_pool)
    &&& m1.level_pool.wf()
    &&& pool_frame(&m0.level_pool, &m1.level_pool, order.level_id.0)
    &&& m1.books@ == m0.books@.update(order.book_id.0 as int, Some(nb))
    &&& m1.oid_map.slots() == m0.oid_map.slots().update(oid as int, None)
    &&& m1.owner@ == m0.owner@
}

/// The order being removed is within its level.
pub proof fn lemma_order_within(m: &OrderBookManager, oid: u32)
    requires
        m.wf(),
        m.oid_map.orders().contains_key(oid),
    ensures
        m.oid_map.orders()[oid].qty.0 <= m.level_pool.levels()[m.oid_map.orders()[oid].level_id.0 as int].size.0,
{
    let id = m.oid_map.orders()[oid].level_id.0;
    assert(live(&m.level_pool, id));
    lemma_qty_at_share(m.oid_map.slots(), oid as int, id);
}

proof fn lemma_remove_books(
    m0: &OrderBookManager,
    m1: &OrderBookManager,
    oid: u32,
    ob: OrderBook,
    nb: OrderBook,
    order: Order,
)
    requires
        remove_step(m0, m1, oid, ob, nb, order),
    ensures
        m1.books_wf(),
{
    let b = order.book_id.0 as int;
    let id = order.level_id.0;
    let pool0 = &m0.level_pool;
    let pool1 = &m1.level_pool;
    let lv = pool0.levels()[id as int];
    let bid = lv.price.0 > 0;
    let s = ob.side(bid);
    let o = ob.side(!bid);
    let k = price_index(s, lv.price);
    let left = lv.size.0 - order.qty.0;
    lemma_price_index(s, lv.price);
    assert(m0.oid_map.orders().contains_key(oid));
    lemma_order_within(m0, oid);
    assert(left >= 0);
    assert(live(pool0, id));
    assert(m0.owner@[id] == b);
    assert(m0.has_book(b));
    assert(m0.book(b).wf(pool0));
    assert(m0.book(b).lists(pool0, id));
    assert(s[k].level_idx.0 == id);
    assert forall|b2: int, bid2: bool, i: int|
        0 <= b2 < MAX_BOOKS && b2 != b && m0.has_book(b2) && 0 <= i < m0.book(b2).side(bid2).len()
            implies #[trigger] m0.book(b2).side(bid2)[i].level_idx.0 != id by {}
    assert forall|i: int| 0 <= i < o.len() implies o[i].level_idx.0 != id by {
        assert(live(pool0, o[i].level_idx.0));
        assert(pool0.levels()[o[i].level_idx.0 as int].price == o[i].price);
    }
    assert forall|j: u32| j != id && #[trigger] live(pool1, j) implies live(pool0, j) by {
        if pool0.is_free(j) {
            let kk = choose|kk: int| 0 <= kk < pool0.free_ids().len() && pool0.free_ids()[kk].0 == j;
            assert(pool1.free_ids()[kk] == pool0.free_ids()[kk]);
        }
    }
    if left == 0 {
        assert(pool1.free_ids()[pool1.free_ids().len() - 1].0 == id);
        assert(pool1.is_free(id));
    }
    assert forall|b2: int| 0 <= b2 < MAX_BOOKS && #[trigger] m1.has_book(b2) implies m1.book(
        b2,
    ).wf(pool1) by {
        if b2 != b {
            assert(m1.books@[b2] == m0.books@[b2]);
            assert(m0.has_book(b2));
            assert(m0.book(b2).wf(pool0));
            let bk = m0.book(b2);
            assert forall|i: int| 0 <= i < bk.bids@.len() implies bk.bids@[i].level_idx.0 != id by {
                assert(bk.side(true)[i] == bk.bids@[i]);
            }
            assert forall|i: int| 0 <= i < bk.asks@.len() implies bk.asks@[i].level_idx.0 != id by {
                assert(bk.side(false)[i] == bk.asks@[i]);
            }
            lemma_side_frame(bk.bids@, true, pool0, pool1, id);
            lemma_side_frame(bk.asks@, false, pool0, pool1, id);
        }
    }
    assert forall|b2: int, bid2: bool, i: int|
        0 <= b2 < MAX_BOOKS && m1.has_book(b2) && 0 <= i < m1.book(b2).side(bid2).len()
            implies m1.owner@.contains_key(#[trigger] m1.book(b2).side(bid2)[i].level_idx.0)
            && m1.owner@[m1.book(b2).side(bid2)[i].level_idx.0] == b2 by {
        if b2 != b {
            assert(m1.books@[b2] == m0.books@[b2]);
            assert(m0.has_book(b2));
            assert(m0.owner@.contains_key(m0.book(b2).side(bid2)[i].level_idx.0));
        } else if bid2 == bid && left == 0 {
            assert(m1.book(b) == nb);
            let ii = if i < k { i } else { i + 1 };
            assert(nb.side(bid)[i] == s[ii]);
            assert(m0.book(b).side(bid)[ii] == s[ii]);
            assert(m0.owner@[m0.book(b).side(bid)[ii].level_idx.0] == b);
        } else {
            assert(m1.book(b) == nb);
            assert(ob.side(bid2) == nb.side(bid2));
            assert(m0.book(b).side(bid2)[i] == nb.side(bid2)[i]);
            assert(m0.owner@[m0.book(b).side(bid2)[i].level_idx.0] == b);
        }
    }
}

proof fn lemma_remove_listed(
    m0: &OrderBookManager,
    m1: &OrderBookManager,
    oid: u32,
    ob: OrderBook,
    nb: OrderBook,
    order: Order,
)
    requires
        remove_step(m0, m1, oid, ob, nb, order),
    ensures
        m1.levels_listed(),
{
    let b = order.book_id.0 as int;
    let id = order.level_id.0;
    let pool0 = &m0.level_pool;
    let pool1 = &m1.level_pool;
    let lv = pool0.levels()[id as int];
    let bid = lv.price.0 > 0;
    let s = ob.side(bid);
    let o = ob.side(!bid);
    let k = price_index(s, lv.price);
    let left = lv.size.0 - order.qty.0;
    lemma_price_index(s, lv.price);
    assert(m0.oid_map.orders().contains_key(oid));
    lemma_order_within(m0, oid);
    assert(left >= 0);
    assert(live(pool0, id));
    assert(m0.owner@[id] == b);
    assert(m0.has_book(b));
    assert(m0.book(b).wf(pool0));
    assert(m0.book(b).lists(pool0, id));
    assert(s[k].level_idx.0 == id);
    assert forall|b2: int, bid2: bool, i: int|
        0 <= b2 < MAX_BOOKS && b2 != b && m0.has_book(b2) && 0 <= i < m0.book(b2).side(bid2).len()
            implies #[trigger] m0.book(b2).side(bid2)[i].level_idx.0 != id by {}
    assert forall|i: int| 0 <= i < o.len() implies o[i].level_idx.0 != id by {
        assert(live(pool0, o[i].level_idx.0));
        assert(pool0.levels()[o[i].level_idx.0 as int].price == o[i].price);
    }
    assert forall|j: u32| j != id && #[trigger] live(pool1, j) implies live(pool0, j) by {
        if pool0.is_free(j) {
            let kk = choose|kk: int| 0 <= kk < pool0.free_ids().len() && pool0.free_ids()[kk].0 == j;
            assert(pool1.free_ids()[kk] == pool0.free_ids()[kk]);
        }
    }
    if left == 0 {
        assert(pool1.free_ids()[pool1.free_ids().len() - 1].0 == id);
        assert(pool1.is_free(id));
    }
    assert forall|j: u32| #[trigger] live(pool1, j) implies {
        &&& m1.owner@.contains_key(j)
        &&& (m1.owner@[j] as int) < MAX_BOOKS
        &&& m1.has_book(m1.owner@[j] as int)
        &&& m1.book(m1.owner@[j] as int).lists(pool1, j)
    } by {
        if j != id {
            assert(live(pool0, j));
            let b2 = m0.owner@[j] as int;
            let pj = pool0.levels()[j as int].price;
            assert(pool1.levels()[j as int] == pool0.levels()[j as int]);
            if b2 != b {
                assert(m1.books@[b2] == m0.books@[b2]);
            } else if (pj.0 > 0) == bid && left == 0 {
                let kj = price_index(s, pj);
                lemma_price_index(s, pj);
                assert(s[kj].level_idx.0 == j);
                let kj2 = if kj < k { kj } else { kj - 1 };
                assert(nb.side(bid)[kj2] == s[kj]);
                lemma_price_index_unique(nb.side(bid), pj, kj2);
            }
        } else {
            assert(pool1.levels()[id as int].price == lv.price);
        }
    }
}

proof fn lemma_remove_orders(
    m0: &OrderBookManager,
    m1: &OrderBookManager,
    oid: u32,
    ob: OrderBook,
    nb: OrderBook,
    order: Order,
)
    requires
        remove_step(m0, m1, oid, ob, nb, order),
    ensures
        m1.orders_placed(),
        m1.levels_cover(),
        m0.exact() ==> m1.exact(),
{
    let b = order.book_id.0 as int;
    let id = order.level_id.0;
    let pool0 = &m0.level_pool;
    let pool1 = &m1.level_pool;
    let lv = pool0.levels()[id as int];
    let bid = lv.price.0 > 0;
    let s = ob.side(bid);
    let o = ob.side(!bid);
    let k = price_index(s, lv.price);
    let left = lv.size.0 - order.qty.0;
    lemma_price_index(s, lv.price);
    assert(m0.oid_map.orders().contains_key(oid));
    lemma_order_within(m0, oid);
    assert(left >= 0);
    assert(live(pool0, id));
    assert(m0.owner@[id] == b);
    assert(m0.has_book(b));
    assert(m0.book(b).wf(pool0));
    assert(m0.book(b).lists(pool0, id));
    assert(s[k].level_idx.0 == id);
    assert forall|b2: int, bid2: bool, i: int|
        0 <= b2 < MAX_BOOKS && b2 != b && m0.has_book(b2) && 0 <= i < m0.book(b2).side(bid2).len()
            implies #[trigger] m0.book(b2).side(bid2)[i].level_idx.0 != id by {}
    assert forall|i: int| 0 <= i < o.len() implies o[i].level_idx.0 != id by {
        assert(live(pool0, o[i].level_idx.0));
        assert(pool0.levels()[o[i].level_idx.0 as int].price == o[i].price);
    }
    assert forall|j: u32| j != id && #[trigger] live(pool1, j) implies live(pool0, j) by {
        if pool0.is_free(j) {
            let kk = choose|kk: int| 0 <= kk < pool0.free_ids().len() && pool0.free_ids()[kk].0 == j;
            assert(pool1.free_ids()[kk] == pool0.free_ids()[kk]);
        }
    }
    if left == 0 {
        assert(pool1.free_ids()[pool1.free_ids().len() - 1].0 == id);
        assert(pool1.is_free(id));
    }
    let s0 = m0.oid_map.slots();
    let s1 = m1.oid_map.slots();
    lemma_qty_at_update(s0, oid as int, None, id);
    lemma_qty_at_share(s0, oid as int, id);
    assert forall|kk: u32| #[trigger] m1.oid_map.orders().contains_key(kk) implies {
        let o1 = m1.oid_map.orders()[kk];
        &&& o1.qty.0 > 0
        &&& live(pool1, o1.level_id.0)
        &&& m1.owner@[o1.level_id.0] == o1.book_id.0
    } by {
        assert(kk != oid);
        assert(s1[kk as int] == s0[kk as int]);
        assert(m0.oid_map.orders().contains_key(kk));
        let l = m0.oid_map.orders()[kk].level_id.0;
        if l == id {
            lemma_qty_at_share(s1, kk as int, id);
        }
        if pool1.is_free(l) && l != id {
            assert(pool0.is_free(l));
        }
    }
    assert forall|j: u32| #[trigger] live(pool1, j) implies qty_at(s1, j) <= pool1.levels()[j as int].size.0
        && (m0.exact() ==> qty_at(s1, j) == pool1.levels()[j as int].size.0) by {
        lemma_qty_at_update(s0, oid as int, None, j);
        lemma_qty_at_share(s0, oid as int, j);
        if j != id {
            assert(live(pool0, j));
        }
    }
}

proof fn lemma_remove_model(
    m0: &OrderBookManager,
    m1: &OrderBookManager,
    oid: u32,
    ob: OrderBook,
    nb: OrderBook,
    order: Order,
)
    requires
        remove_step(m0, m1, oid, ob, nb, order),
    ensures
        m1.model() == m0.model().remove(oid),
{
    let b = order.book_id.0 as int;
    let id = order.level_id.0;
    let pool0 = &m0.level_pool;
    let pool1 = &m1.level_pool;
    let lv = pool0.levels()[id as int];
    let bid = lv.price.0 > 0;
    let s = ob.side(bid);
    let o = ob.side(!bid);
    let k = price_index(s, lv.price);
    let left = lv.size.0 - order.qty.0;
    lemma_price_index(s, lv.price);
    assert(m0.oid_map.orders().contains_key(oid));
    lemma_order_within(m0, oid);
    assert(left >= 0);
    assert(live(pool0, id));
    assert(m0.owner@[id] == b);
    assert(m0.has_book(b));
    assert(m0.book(b).wf(pool0));
    assert(m0.book(b).lists(pool0, id));
    assert(s[k].level_idx.0 == id);
    assert forall|b2: int, bid2: bool, i: int|
        0 <= b2 < MAX_BOOKS && b2 != b && m0.has_book(b2) && 0 <= i < m0.book(b2).side(bid2).len()
            implies #[trigger] m0.book(b2).side(bid2)[i].level_idx.0 != id by {}
    assert forall|i: int| 0 <= i < o.len() implies o[i].level_idx.0 != id by {
        assert(live(pool0, o[i].level_idx.0));
        assert(pool0.levels()[o[i].level_idx.0 as int].price == o[i].price);
    }
    assert forall|j: u32| j != id && #[trigger] live(pool1, j) implies live(pool0, j) by {
        if pool0.is_free(j) {
            let kk = choose|kk: int| 0 <= kk < pool0.free_ids().len() && pool0.free_ids()[kk].0 == j;
            assert(pool1.free_ids()[kk] == pool0.free_ids()[kk]);
        }
    }
    if left == 0 {
        assert(pool1.free_ids()[pool1.free_ids().len() - 1].0 == id);
        assert(pool1.is_free(id));
    }
    lemma_order_within(m0, oid);
    let mm = m0.model().remove(oid);
    assert(m0.model().orders.contains_key(oid));
    assert(m0.model().orders[oid] == Resting { book: b, price: lv.price.0 as int, qty: order.qty.0 as int });
    lemma_depth_index(s, pool0, lv.price);
    assert forall|b2: int| 0 <= b2 < MAX_BOOKS implies #[trigger] m1.model().books[b2]
        == mm.books[b2] by {
        assert(m1.books@[b2] == m0.books@[b2] || b2 == b);
        if b2 != b {
            if m0.has_book(b2) {
                assert(m0.book(b2).wf(pool0));
                let bk = m0.book(b2);
                assert forall|i: int| 0 <= i < bk.bids@.len() implies bk.bids@[i].level_idx.0 != id by {
                    assert(bk.side(true)[i] == bk.bids@[i]);
                }
                assert forall|i: int| 0 <= i < bk.asks@.len() implies bk.asks@[i].level_idx.0 != id by {
                    assert(bk.side(false)[i] == bk.asks@[i]);
                }
                lemma_depth_frame(bk.bids@, true, pool0, pool1, id);
                lemma_depth_frame(bk.asks@, false, pool0, pool1, id);
            }
        } else {
            lemma_depth_frame(o, !bid, pool0, pool1, id);
            assert(m0.model().side(b, bid) == depth(s, pool0));
            let want = side_take(depth(s, pool0), lv.price.0 as int, order.qty.0 as int);
            let s2 = nb.side(bid);
            if left == 0 {
                assert forall|i: int| 0 <= i < s2.len() implies #[trigger] depth(s2, pool1)[i] == want[i] by {
                    let ii = if i < k { i } else { i + 1 };
                    assert(s2[i] == s[ii]);
                    lemma_side_unique(s, bid, pool0, k, ii);
                }
            } else {
                assert forall|i: int| 0 <= i < s2.len() implies #[trigger] depth(s2, pool1)[i] == want[i] by {
                    if i != k {
                        lemma_side_unique(s, bid, pool0, k, i);
                    }
                }
            }
            assert(depth(s2, pool1) =~= want);
            if bid {
                assert(m1.model().books[b2] == BookModel { bids: depth(s2, pool1), asks: depth(o, pool0) });
            } else {
                assert(m1.model().books[b2] == BookModel { asks: depth(s2, pool1), bids: depth(o, pool0) });
            }
        }
    }
    assert(m1.model().books =~= mm.books);
    assert forall|kk: u32| #[trigger] m1.model().orders.contains_key(kk) == mm.orders.contains_key(kk) by {
        if kk != oid && (kk as int) < m0.oid_map.slots().len() {
            assert(m1.oid_map.slots()[kk as int] == m0.oid_map.slots()[kk as int]);
        }
    }
    assert forall|kk: u32| #[trigger] m1.model().orders.contains_key(kk) implies m1.model().orders[kk] == mm.orders[kk] by {
        assert(m1.oid_map.slots()[kk as int] == m0.oid_map.slots()[kk as int]);
        assert(m0.oid_map.orders().contains_key(kk));
    }
    assert(m1.model().orders =~= mm.orders);
}

/// Removing an order keeps the invariant and moves the model as
/// `Model::remove` says.
pub(crate) proof fn lemma_remove_step(
    m0: &OrderBookManager,
    m1: &OrderBookManager,
    oid: u32,
    ob: OrderBook,
    nb: OrderBook,
    order: Order,
)
    requires
        remove_step(m0, m1, oid, ob, nb, order),
    ensures
        m1.wf(),
        m1.model() == m0.model().remove(oid),
        m0.exact() ==> m1.exact(),
{
    lemma_remove_books(m0, m1, oid, ob, nb, order);
    lemma_remove_listed(m0, m1, oid, ob, nb, order);
    lemma_remove_orders(m0, m1, oid, ob, nb, order);
    lemma_remove_model(m0, m1, oid, ob, nb, order);
}

/// `m1` is `m0` after `q` shares of order `oid`, which read as `order`, were
/// cancelled, `q` being less than the order holds.
pub open spec fn cancel_step(
    m0: &OrderBookManager,
    m1: &OrderBookManager,
    oid: u32,
    order: Order,
    q: u32,
) -> bool {
    let lv = m0.level_pool.levels()[order.level_id.0 as int];
    &&& m0.wf()
    &&& m0.oid_map.slots()[oid as int] == Some(order)
    &&& (oid as int) < m0.oid_map.slots().len()
    &&& q < order.qty.0
    &&& m1.level_pool.levels() == m0.level_pool.levels().update(
        order.level_id.0 as int,
        Level { size: Qty((lv.size.0 - q) as u32), ..lv },
    )
    &&& m1.level_pool.free_ids() == m0.level_pool.free_ids()
    &&& m1.books@ == m0.books@
    &&& m1.oid_map.slots() == m0.oid_map.slots().update(
        oid as int,
        Some(Order { qty: Qty((order.qty.0 - q) as u32), ..order }),
    )
    &&& m1.owner@ == m0.owner@
}

/// A side reads the same from a pool that changed only the size of level
/// `id`, except at the entries naming `id`; and it stays well formed while
/// that size stays positive.
proof fn lemma_side_resize(
    s: Seq<PriceLevel>,
    bid: bool,
    pool: &LevelPool,
    pool2: &LevelPool,
    id: u32,
    size: u32,
)
    requires
        side_wf(s, bid, pool),
        (id as int) < pool.levels().len(),
        size > 0,
        pool2.levels() == pool.levels().update(
            id as int,
            (Level { size: Qty(size), ..pool.levels()[id as int] }),
        ),
        pool2.free_ids() == pool.free_ids(),
    ensures
        side_wf(s, bid, pool2),
        forall|i: int| 0 <= i < s.len() && s[i].level_idx.0 != id ==> #[trigger] depth(s, pool2)[i] == depth(s, pool)[i],
        forall|i: int| 0 <= i < s.len() && s[i].level_idx.0 == id ==> #[trigger] depth(s, pool2)[i] == (Depth { price: s[i].price.0 as int, size: size as int }),
        depth(s, pool2).len() == s.len(),
{
    assert forall|j: u32| #[trigger] pool2.is_free(j) == pool.is_free(j) by {}
}

/// Cancelling part of an order keeps the invariant and moves the model as
/// `Model::cancel` says.
pub(crate) proof fn lemma_cancel_step(
    m0: &OrderBookManager,
    m1: &OrderBookManager,
    oid: u32,
    order: Order,
    q: u32,
)
    requires
        cancel_step(m0, m1, oid, order, q),
    ensures
        m1.wf(),
        m1.model() == m0.model().cancel(oid, q as int),
        m0.exact() ==> m1.exact(),
{
    let b = order.book_id.0 as int;
    let id = order.level_id.0;
    let pool0 = &m0.level_pool;
    let pool1 = &m1.level_pool;
    let lv = pool0.levels()[id as int];
    let bid = lv.price.0 > 0;
    let nsz = (lv.size.0 - q) as u32;
    assert(m0.oid_map.orders().contains_key(oid));
    lemma_order_within(m0, oid);
    assert(live(pool0, id));
    assert(m0.has_book(b));
    let bk = m0.book(b);
    assert(bk.wf(pool0));
    assert(bk.lists(pool0, id));
    let s = bk.side(bid);
    let k = price_index(s, lv.price);
    lemma_price_index(s, lv.price);
    assert forall|j: u32| #[trigger] live(pool1, j) == live(pool0, j) by {
        assert(pool1.is_free(j) == pool0.is_free(j));
    }
    // books
    assert forall|b2: int| 0 <= b2 < MAX_BOOKS && #[trigger] m1.has_book(b2) implies m1.book(
        b2,
    ).wf(pool1) by {
        assert(m0.has_book(b2));
        assert(m0.book(b2).wf(pool0));
        lemma_side_resize(m0.book(b2).bids@, true, pool0, pool1, id, nsz);
        lemma_side_resize(m0.book(b2).asks@, false, pool0, pool1, id, nsz);
    }
    assert forall|b2: int, bid2: bool, i: int|
        0 <= b2 < MAX_BOOKS && m1.has_book(b2) && 0 <= i < m1.book(b2).side(bid2).len()
            implies m1.owner@.contains_key(#[trigger] m1.book(b2).side(bid2)[i].level_idx.0)
            && m1.owner@[m1.book(b2).side(bid2)[i].level_idx.0] == b2 by {
        assert(m1.book(b2) == m0.book(b2));
        assert(m0.has_book(b2));
    }
    assert(m1.books_wf());
    assert forall|j: u32| #[trigger] live(pool1, j) implies {
        &&& m1.owner@.contains_key(j)
        &&& (m1.owner@[j] as int) < MAX_BOOKS
        &&& m1.has_book(m1.owner@[j] as int)
        &&& m1.book(m1.owner@[j] as int).lists(pool1, j)
    } by {
        assert(live(pool0, j));
        assert(pool1.levels()[j as int].price == pool0.levels()[j as int].price);
    }
    // orders and sums
    let s0 = m0.oid_map.slots();
    let s1 = m1.oid_map.slots();
    let no = Order { qty: Qty((order.qty.0 - q) as u32), ..order };
    assert forall|kk: u32| #[trigger] m1.oid_map.orders().contains_key(kk) implies {
        let o1 = m1.oid_map.orders()[kk];
        &&& o1.qty.0 > 0
        &&& live(pool1, o1.level_id.0)
        &&& m1.owner@[o1.level_id.0] == o1.book_id.0
    } by {
        if kk != oid {
            assert(s1[kk as int] == s0[kk as int]);
            assert(m0.oid_map.orders().contains_key(kk));
        }
    }
    assert forall|j: u32| #[trigger] live(pool1, j) implies qty_at(s1, j) <= pool1.levels()[j as int].size.0
        && (m0.exact() ==> qty_at(s1, j) == pool1.levels()[j as int].size.0) by {
        lemma_qty_at_update(s0, oid as int, Some(no), j);
        assert(live(pool0, j));
    }
    // model
    let mm = m0.model().cancel(oid, q as int);
    assert(m0.model().orders[oid] == Resting { book: b, price: lv.price.0 as int, qty: order.qty.0 as int });
    lemma_depth_index(s, pool0, lv.price);
    assert forall|b2: int| 0 <= b2 < MAX_BOOKS implies #[trigger] m1.model().books[b2]
        == mm.books[b2] by {
        if m0.has_book(b2) {
            let bk2 = m0.book(b2);
            assert(bk2.wf(pool0));
            lemma_side_resize(bk2.bids@, true, pool0, pool1, id, nsz);
            lemma_side_resize(bk2.asks@, false, pool0, pool1, id, nsz);
            if b2 != b {
                assert forall|bid2: bool, i: int| 0 <= i < bk2.side(bid2).len() implies #[trigger] bk2.side(bid2)[i].level_idx.0 != id by {
                    assert(m0.owner@[bk2.side(bid2)[i].level_idx.0] == b2);
                }
                assert forall|i: int| 0 <= i < bk2.bids@.len() implies #[trigger] depth(bk2.bids@, pool1)[i] == depth(bk2.bids@, pool0)[i] by {
                    assert(bk2.side(true)[i] == bk2.bids@[i]);
                }
                assert forall|i: int| 0 <= i < bk2.asks@.len() implies #[trigger] depth(bk2.asks@, pool1)[i] == depth(bk2.asks@, pool0)[i] by {
                    assert(bk2.side(false)[i] == bk2.asks@[i]);
                }
                assert(depth(bk2.bids@, pool1) =~= depth(bk2.bids@, pool0));
                assert(depth(bk2.asks@, pool1) =~= depth(bk2.asks@, pool0));
            } else {
                let o = bk.side(!bid);
                assert forall|i: int| 0 <= i < o.len() implies #[trigger] depth(o, pool1)[i] == depth(o, pool0)[i] by {
                    assert(pool0.levels()[o[i].level_idx.0 as int].price == o[i].price);
                    assert(o[i].level_idx.0 != id);
                }
                assert(depth(o, pool1) =~= depth(o, pool0));
                let want = side_reduce(depth(s, pool0), lv.price.0 as int, q as int);
                assert forall|i: int| 0 <= i < s.len() implies #[trigger] depth(s, pool1)[i] == want[i] by {
                    if i != k {
                        lemma_side_unique(s, bid, pool0, k, i);
                    }
                }
                assert(depth(s, pool1) =~= want);
                if bid {
                    assert(m1.model().books[b2] == BookModel { bids: depth(s, pool1), asks: depth(o, pool0) });
                } else {
                    assert(m1.model().books[b2] == BookModel { asks: depth(s, pool1), bids: depth(o, pool0) });
                }
            }
        }
    }
    assert(m1.model().books =~= mm.books);
    assert forall|kk: u32| #[trigger] m1.model().orders.contains_key(kk) == mm.orders.contains_key(kk) by {
        if kk != oid && (kk as int) < s0.len() {
            assert(s1[kk as int] == s0[kk as int]);
        }
    }
    assert forall|kk: u32| #[trigger] m1.model().orders.contains_key(kk) implies m1.model().orders[kk] == mm.orders[kk] by {
        if kk != oid {
            assert(s1[kk as int] == s0[kk as int]);
        }
    }
    assert(m1.model().orders =~= mm.orders);
}

} // verus!
