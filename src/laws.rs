//! Laws of the book engine, stated over the model of the manager.
use vstd::prelude::*;
use crate::level::{price_index, lemma_price_index, LevelId, PriceLevel};
use crate::orderbook::{level_added, live, side_wf};
use crate::manager_steps::lemma_order_within;
use crate::model::{depth_below, depth_index, side_add, side_take, Depth, Model};
use crate::orderbook_manager::{depth, lemma_depth_index, OrderBookManager};
use crate::pool::LevelPool;
use crate::price::Price;
use crate::quantity::Qty;
use crate::utils::MAX_BOOKS;

verus! {

/// Prices strictly increase along a side of the model.
pub open spec fn ascending(s: Seq<Depth>) -> bool {
    forall|i: int, j: int| 0 <= i < j < s.len() ==> s[i].price < s[j].price
}

proof fn lemma_depth_index_props(s: Seq<Depth>, p: int)
    ensures
        -1 <= depth_index(s, p) < s.len(),
        depth_index(s, p) >= 0 ==> s[depth_index(s, p)].price == p,
        depth_index(s, p) < 0 ==> forall|j: int| 0 <= j < s.len() ==> s[j].price != p,
    decreases s.len(),
{
    if s.len() > 0 && s.last().price != p {
        lemma_depth_index_props(s.drop_last(), p);
        assert forall|j: int| 0 <= j < s.len() - 1 implies s[j] == s.drop_last()[j] by {}
    }
}

proof fn lemma_depth_index_at(s: Seq<Depth>, p: int, i: int)
    requires
        ascending(s),
        0 <= i < s.len(),
        s[i].price == p,
    ensures
        depth_index(s, p) == i,
    decreases s.len(),
{
    if i < s.len() - 1 {
        assert(s.last().price != p);
        lemma_depth_index_at(s.drop_last(), p, i);
    }
}

proof fn lemma_depth_below_split(s: Seq<Depth>, p: int)
    requires
        ascending(s),
    ensures
        depth_below(s, p) <= s.len(),
        forall|j: int| 0 <= j < depth_below(s, p) ==> s[j].price < p,
        forall|j: int| depth_below(s, p) <= j < s.len() ==> s[j].price >= p,
    decreases s.len(),
{
    if s.len() > 0 {
        let t = s.drop_first();
        assert forall|i: int, j: int| 0 <= i < j < t.len() implies t[i].price < t[j].price by {
            assert(t[i] == s[i + 1] && t[j] == s[j + 1]);
        }
        lemma_depth_below_split(t, p);
        assert forall|j: int| 0 <= j < depth_below(s, p) implies s[j].price < p by {
            if j > 0 {
                assert(s[j] == t[j - 1]);
            }
        }
        assert forall|j: int| depth_below(s, p) <= j < s.len() implies s[j].price >= p by {
            if s[0].price < p {
                assert(s[j] == t[j - 1]);
            } else if j > 0 {
                assert(s[0].price < s[j].price);
            }
        }
    }
}

/// Adding `q > 0` shares at a price and then taking them back restores the side.
proof fn lemma_side_add_take(s: Seq<Depth>, p: int, q: int)
    requires
        ascending(s),
        forall|i: int| 0 <= i < s.len() ==> s[i].size > 0,
        q > 0,
    ensures
        side_take(side_add(s, p, q), p, q) == s,
{
    lemma_depth_index_props(s, p);
    let k = depth_index(s, p);
    let t = side_add(s, p, q);
    if k >= 0 {
        assert forall|i: int, j: int| 0 <= i < j < t.len() implies t[i].price < t[j].price by {}
        lemma_depth_index_at(t, p, k);
        assert(side_take(t, p, q) =~= s);
    } else {
        lemma_depth_below_split(s, p);
        let c = depth_below(s, p) as int;
        assert forall|i: int, j: int| 0 <= i < j < t.len() implies t[i].price < t[j].price by {
            if j < c {
            } else if i < c && j == c {
            } else if i < c {
                assert(t[j] == s[j - 1]);
            } else if i == c {
                assert(t[j] == s[j - 1]);
                assert(s[j - 1].price != p);
            } else {
                assert(t[i] == s[i - 1] && t[j] == s[j - 1]);
            }
        }
        lemma_depth_index_at(t, p, c);
        assert(side_take(t, p, q) =~= s);
    }
}

/// Resting an order with a fresh id and removing it again leaves every book
/// and the set of resting orders as they were.
pub proof fn lemma_add_then_remove(m: Model, o: u32, b: int, q: int, p: int)
    requires
        m.wf(),
        !m.orders.contains_key(o),
        0 <= b < MAX_BOOKS,
        q > 0,
    ensures
        m.add(o, b, q, p).remove(o) == m,
{
    let s = m.side(b, p > 0);
    assert forall|i: int, j: int| 0 <= i < j < s.len() implies s[i].price < s[j].price by {
        assert(m.side(b, p > 0)[i].price < m.side(b, p > 0)[j].price);
    }
    assert forall|i: int| 0 <= i < s.len() implies s[i].size > 0 by {
        assert(m.side(b, p > 0)[i].size > 0);
    }
    lemma_side_add_take(s, p, q);
    let m1 = m.add(o, b, q, p);
    assert(m1.orders.contains_key(o));
    assert(m1.side(b, p > 0) == side_add(s, p, q));
    let m2 = m1.remove(o);
    assert(m2.books =~= m.books) by {
        assert forall|b2: int| 0 <= b2 < m.books.len() implies m2.books[b2] == m.books[b2] by {}
    }
    assert(m2.orders =~= m.orders);
}

/// Resting an order with a fresh id and cancelling all its shares leaves
/// every level and the set of resting orders as they were.
pub proof fn lemma_add_then_cancel_all(m: Model, o: u32, b: int, q: int, p: int)
    requires
        m.wf(),
        !m.orders.contains_key(o),
        0 <= b < MAX_BOOKS,
        q > 0,
    ensures
        m.add(o, b, q, p).cancel(o, q) == m,
{
    lemma_add_then_remove(m, o, b, q, p);
}

/// Resting an order with a fresh id and executing all its shares removes it
/// and takes its shares back off its level: the state is as before.
pub proof fn lemma_add_then_execute_all(m: Model, o: u32, b: int, q: int, p: int)
    requires
        m.wf(),
        !m.orders.contains_key(o),
        0 <= b < MAX_BOOKS,
        q > 0,
    ensures
        !m.add(o, b, q, p).execute(o, q).orders.contains_key(o),
        m.add(o, b, q, p).execute(o, q) == m,
{
    lemma_add_then_remove(m, o, b, q, p);
}

/// Cancelling fewer shares than an order holds keeps it with the rest.
pub proof fn lemma_partial_cancel(m: Model, o: u32, q: int)
    requires
        m.orders.contains_key(o),
        0 <= q < m.orders[o].qty,
    ensures
        m.cancel(o, q).orders.contains_key(o),
        m.cancel(o, q).orders[o].qty == m.orders[o].qty - q,
{
}

/// Executing all the shares of an order removes it; executing fewer leaves
/// the rest resting.
pub proof fn lemma_execute_residue(m: Model, o: u32, q: int)
    requires
        m.orders.contains_key(o),
        0 <= q <= m.orders[o].qty,
    ensures
        q == m.orders[o].qty ==> !m.execute(o, q).orders.contains_key(o),
        q < m.orders[o].qty ==> m.execute(o, q).orders.contains_key(o) && m.execute(
            o,
            q,
        ).orders[o].qty == m.orders[o].qty - q,
{
}

/// A bid priced above every bid of its book becomes the new last level.
pub proof fn lemma_add_above_all_bids(m: Model, o: u32, b: int, q: int, p: int)
    requires
        m.wf(),
        0 <= b < MAX_BOOKS,
        p > 0,
        forall|i: int| 0 <= i < m.side(b, true).len() ==> m.side(b, true)[i].price < p,
    ensures
        m.add(o, b, q, p).side(b, true) == m.side(b, true).push(Depth { price: p, size: q }),
{
    let s = m.side(b, true);
    lemma_depth_index_props(s, p);
    assert forall|i: int, j: int| 0 <= i < j < s.len() implies s[i].price < s[j].price by {
        assert(m.side(b, true)[i].price < m.side(b, true)[j].price);
    }
    lemma_depth_below_split(s, p);
    assert(depth_below(s, p) == s.len());
    assert(s.insert(s.len() as int, Depth { price: p, size: q }) =~= s.push(Depth { price: p, size: q }));
}

/// A bid priced below every bid of its book becomes the new first level.
pub proof fn lemma_add_below_all_bids(m: Model, o: u32, b: int, q: int, p: int)
    requires
        m.wf(),
        0 <= b < MAX_BOOKS,
        p > 0,
        forall|i: int| 0 <= i < m.side(b, true).len() ==> m.side(b, true)[i].price > p,
    ensures
        m.add(o, b, q, p).side(b, true) == m.side(b, true).insert(0, Depth { price: p, size: q }),
{
    let s = m.side(b, true);
    lemma_depth_index_props(s, p);
    assert forall|i: int, j: int| 0 <= i < j < s.len() implies s[i].price < s[j].price by {
        assert(m.side(b, true)[i].price < m.side(b, true)[j].price);
    }
    lemma_depth_below_split(s, p);
    if s.len() > 0 {
        assert(s[0].price > p);
    }
    assert(depth_below(s, p) == 0);
}

/// Adding at a price that already has a level reuses its handle: no handle
/// is allocated and the pool keeps its size.
pub proof fn lemma_existing_price_keeps_handle(
    s: Seq<PriceLevel>,
    s2: Seq<PriceLevel>,
    pool: &LevelPool,
    pool2: &LevelPool,
    price: Price,
    qty: Qty,
    id: LevelId,
)
    requires
        side_wf(s, price.0 > 0, pool),
        level_added(s, s2, pool, pool2, price, qty, id),
        price_index(s, price) >= 0,
    ensures
        id == s[price_index(s, price)].level_idx,
        s2 == s,
        pool2.free_ids() == pool.free_ids(),
        pool2.levels().len() == pool.levels().len(),
{
    lemma_price_index(s, price);
    assert(live(pool, s[price_index(s, price)].level_idx.0));
}

/// Every resting order holds no more than the aggregate size of its level.
pub proof fn lemma_order_within_level(m: &OrderBookManager, o: u32)
    requires
        m.wf(),
        m.oid_map.orders().contains_key(o),
    ensures
        m.oid_map.orders()[o].qty.0 <= m.level_pool.levels()[m.oid_map.orders()[o].level_id.0 as int].size.0,
{
    lemma_order_within(m, o);
}

/// A well-formed manager has a well-formed model: ascending sides of
/// positive sizes on their own sign, and every order within its level.
pub proof fn lemma_model_wf(m: &OrderBookManager)
    requires
        m.wf(),
    ensures
        m.model().wf(),
{
    let md = m.model();
    let pool = &m.level_pool;
    assert forall|b: int, bid: bool, i: int|
        0 <= b < MAX_BOOKS && 0 <= i < md.side(b, bid).len() implies {
            &&& (#[trigger] md.side(b, bid)[i]).size > 0
            &&& (md.side(b, bid)[i].price > 0) == bid
        } by {
        assert(m.has_book(b));
        assert(m.book(b).wf(pool));
        assert(md.side(b, bid) == depth(m.book(b).side(bid), pool));
        assert(m.book(b).side(bid)[i] == m.book(b).side(bid)[i]);
    }
    assert forall|b: int, bid: bool, i: int, j: int|
        0 <= b < MAX_BOOKS && 0 <= i < j < md.side(b, bid).len() implies #[trigger] md.side(
            b,
            bid,
        )[i].price < #[trigger] md.side(b, bid)[j].price by {
        assert(m.has_book(b));
        assert(m.book(b).wf(pool));
        assert(md.side(b, bid) == depth(m.book(b).side(bid), pool));
    }
    assert forall|o: u32| #[trigger] md.orders.contains_key(o) implies {
        let r = md.orders[o];
        &&& 0 <= r.book < MAX_BOOKS
        &&& r.qty > 0
        &&& depth_index(md.side(r.book, r.price > 0), r.price) >= 0
        &&& r.qty <= md.side(r.book, r.price > 0)[depth_index(
            md.side(r.book, r.price > 0),
            r.price,
        )].size
    } by {
        let ord = m.oid_map.orders()[o];
        let id = ord.level_id.0;
        let b = ord.book_id.0 as int;
        assert(live(pool, id));
        assert(m.has_book(b));
        let bk = m.book(b);
        assert(bk.lists(pool, id));
        let p = pool.levels()[id as int].price;
        let s = bk.side(p.0 > 0);
        lemma_depth_index(s, pool, p);
        lemma_price_index(s, p);
        assert(md.side(b, p.0 > 0) == depth(s, pool));
        lemma_order_within(m, o);
    }
}

/// Every resting order names a level in use, which the pool can look up.
pub proof fn lemma_resting_level_in_use(m: &OrderBookManager, o: u32)
    requires
        m.wf(),
        m.oid_map.orders().contains_key(o),
    ensures
        live(&m.level_pool, m.oid_map.orders()[o].level_id.0),
        (m.oid_map.orders()[o].level_id.0 as int) < m.level_pool.levels().len(),
        !m.level_pool.is_free(m.oid_map.orders()[o].level_id.0),
{
}

/// On the manager: `add_order` of a fresh id followed by `remove_order` of
/// that id leaves every book and every resting order as before.
pub proof fn lemma_manager_add_then_remove(
    before: &OrderBookManager,
    added: &OrderBookManager,
    after: &OrderBookManager,
    o: u32,
    b: int,
    q: int,
    p: int,
)
    requires
        before.wf(),
        !before.model().orders.contains_key(o),
        0 <= b < MAX_BOOKS,
        q > 0,
        added.model() == before.model().add(o, b, q, p),
        after.model() == added.model().remove(o),
    ensures
        after.model() == before.model(),
{
    lemma_model_wf(before);
    lemma_add_then_remove(before.model(), o, b, q, p);
}

} // verus!
