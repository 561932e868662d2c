use itch_lob::level::{Level, LevelId, PriceLevel, SortedLevels};
use itch_lob::pool::LevelPool;
use itch_lob::price::Price;
use itch_lob::quantity::Qty;

#[test]
fn test_pool_alloc_free() {
    let mut pool = LevelPool::new_with_capacity(100);

    let ptr1 = pool.alloc_level();
    let ptr2 = pool.alloc_level();

    assert_eq!(ptr1.0, 0);
    assert_eq!(ptr2.0, 1);

    pool.free(ptr1);

    let ptr3 = pool.alloc_level();
    assert_eq!(ptr3.0, 0);
}

#[test]
fn test_qty_add_sub_is_zero() {
    let qty1 = Qty(10);
    let qty2 = Qty(5);
    let qty3 = Qty(0);

    assert_eq!(qty1.add(qty2.clone()), Qty(15));
    assert_eq!(qty1.sub(qty2), Qty(5));
    assert!(qty3.is_empty());
    assert!(!qty1.is_empty());
}

#[test]
fn price_sign_encodes_side() {
    assert_eq!(Price::from_u32(500, true), Price(500));
    assert_eq!(Price::from_u32(500, false), Price(-500));
    assert!(Price(500).is_bid());
    assert!(!Price(-500).is_bid());
    assert!(!Price(0).is_bid());
    assert_eq!(Price(-500).absolute(), 500);
    assert_eq!(Price(42).absolute(), 42);
    assert_eq!(Price(-7).value(), -7);
}

#[test]
fn level_incr_decr() {
    let mut level = Level::new(Price(100), Qty(5));
    level.incr(Qty(10));
    assert_eq!(level.size(), Qty(15));
    level.decr(Qty(15));
    assert!(level.is_empty());
    assert!(level.is_bid());
    assert!(!level.is_ask());
    level.set_price(Price(-100));
    level.set_size(Qty(3));
    assert_eq!(level.price(), Price(-100));
    assert!(level.is_ask());
    assert_eq!(level.size().value(), 3);
}

#[test]
fn pool_get_and_set() {
    let mut pool = LevelPool::new();
    let id = pool.alloc_level();
    assert_eq!(pool.get(id).unwrap().size(), Qty(0));
    pool.set_level(id, Level::new(Price(7), Qty(9)));
    assert_eq!(pool.get(id).unwrap().price(), Price(7));
    pool.get_mut(id).unwrap().incr(Qty(1));
    assert_eq!(pool.get(id).unwrap().size(), Qty(10));
    assert!(pool.get(LevelId(5)).is_none());
    assert!(pool.get_mut(LevelId(5)).is_none());
}

#[test]
fn sorted_levels_insert_remove() {
    let mut side = SortedLevels::new();
    assert!(side.is_empty());
    side.insert(0, PriceLevel::new(Price(10), LevelId(0)));
    side.insert(1, PriceLevel::new(Price(20), LevelId(1)));
    side.insert(1, PriceLevel::new(Price(15), LevelId(2)));
    assert_eq!(side.len(), 3);
    assert_eq!(side.get(1).price(), Price(15));
    side.get_mut(1).level_idx = LevelId(9);
    assert_eq!(side.get(1).level_id(), LevelId(9));
    side.remove(Price(15));
    assert_eq!(side.len(), 2);
    assert_eq!(side.get(1).price(), Price(20));
    side.remove(Price(99));
    assert_eq!(side.len(), 2);
}

#[test]
fn level_id_value() {
    assert_eq!(LevelId(12).value(), 12);
}
