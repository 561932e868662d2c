use itch_lob::level::LevelId;
use itch_lob::order::OrderId;
use itch_lob::orderbook_manager::OrderBookManager;
use itch_lob::price::Price;
use itch_lob::quantity::Qty;
use itch_lob::utils::BookId;

fn size_at(m: &OrderBookManager, level: u32) -> Qty {
    m.level_pool.get(LevelId(level)).unwrap().size()
}

fn bids_len(m: &OrderBookManager, book: usize) -> usize {
    m.books[book].as_ref().unwrap().bids.len()
}

fn bid_prices(m: &OrderBookManager, book: usize) -> Vec<i32> {
    let side = &m.books[book].as_ref().unwrap().bids;
    (0..side.len()).map(|i| side.get(i).price().value()).collect()
}

#[test]
fn test_add_order() {
    let mut orderbook_manager = OrderBookManager::new();

    orderbook_manager.add_order(OrderId(0), BookId(0), Qty(100), 600, true);
    orderbook_manager.add_order(OrderId(1), BookId(0), Qty(50), 500, true);
    orderbook_manager.add_order(OrderId(2), BookId(0), Qty(70), 300, true);
    orderbook_manager.add_order(OrderId(3), BookId(0), Qty(80), 400, true);
    orderbook_manager.add_order(OrderId(4), BookId(0), Qty(90), 200, true);
    orderbook_manager.add_order(OrderId(5), BookId(0), Qty(100), 50, true);
    orderbook_manager.add_order(OrderId(6), BookId(0), Qty(100), 100, true);
    orderbook_manager.add_order(OrderId(7), BookId(1), Qty(50), 100, true);
    orderbook_manager.add_order(OrderId(8), BookId(2), Qty(70), 200, true);
    orderbook_manager.add_order(OrderId(9), BookId(1), Qty(80), 300, true);
    orderbook_manager.add_order(OrderId(10), BookId(1), Qty(90), 400, true);
    orderbook_manager.add_order(OrderId(34), BookId(2), Qty(100), 50, true);
    orderbook_manager.add_order(OrderId(13), BookId(0), Qty(80), 400, false);
    orderbook_manager.add_order(OrderId(14), BookId(0), Qty(90), 200, false);
    orderbook_manager.add_order(OrderId(15), BookId(0), Qty(100), 50, false);
    orderbook_manager.add_order(OrderId(16), BookId(0), Qty(100), 100, false);
    println!("Test");
}

#[test]
fn test_remove_order() {
    let mut orderbook_manager = OrderBookManager::new();
    orderbook_manager.add_order(OrderId(0), BookId(0), Qty(100), 600, true);
    orderbook_manager.add_order(OrderId(1), BookId(0), Qty(50), 500, true);
    orderbook_manager.add_order(OrderId(2), BookId(0), Qty(70), 300, true);
    orderbook_manager.add_order(OrderId(3), BookId(0), Qty(80), 400, true);
    orderbook_manager.add_order(OrderId(4), BookId(0), Qty(90), 200, true);
    orderbook_manager.add_order(OrderId(5), BookId(0), Qty(100), 50, true);
    orderbook_manager.add_order(OrderId(6), BookId(0), Qty(100), 100, true);
    orderbook_manager.add_order(OrderId(7), BookId(1), Qty(50), 100, true);
    orderbook_manager.add_order(OrderId(8), BookId(2), Qty(70), 200, true);
    orderbook_manager.add_order(OrderId(9), BookId(1), Qty(80), 300, true);

    orderbook_manager.remove_order(OrderId(0));
    orderbook_manager.remove_order(OrderId(1));
    orderbook_manager.remove_order(OrderId(4));
    orderbook_manager.remove_order(OrderId(7));
}

#[test]
fn test_cancel_order() {
    let mut orderbook_manager = OrderBookManager::new();
    orderbook_manager.add_order(OrderId(0), BookId(0), Qty(100), 600, true);
    orderbook_manager.add_order(OrderId(1), BookId(0), Qty(50), 500, true);
    orderbook_manager.add_order(OrderId(2), BookId(0), Qty(70), 300, true);
    orderbook_manager.add_order(OrderId(3), BookId(0), Qty(80), 400, true);
    orderbook_manager.add_order(OrderId(4), BookId(0), Qty(90), 200, true);
    orderbook_manager.add_order(OrderId(5), BookId(0), Qty(100), 50, true);
    orderbook_manager.add_order(OrderId(6), BookId(0), Qty(100), 100, true);
    orderbook_manager.add_order(OrderId(7), BookId(1), Qty(50), 100, true);
    orderbook_manager.add_order(OrderId(8), BookId(2), Qty(70), 200, true);
    orderbook_manager.add_order(OrderId(9), BookId(1), Qty(80), 300, true);

    orderbook_manager.cancel_order(OrderId(0), Qty(50));
    orderbook_manager.cancel_order(OrderId(1), Qty(25));
    orderbook_manager.cancel_order(OrderId(4), Qty(25));
    orderbook_manager.cancel_order(OrderId(7), Qty(25));
    orderbook_manager.cancel_order(OrderId(8), Qty(70));
    println!("Done")
}

#[test]
fn test_million_orders() {
    let mut orderbook_manager = OrderBookManager::new();
    let start = std::time::Instant::now();

    for i in 0..10_000_000u32 {
        orderbook_manager.add_order(OrderId(i), BookId(0), Qty(100), 100 * (i % 20), true);
    }

    println!("{:?}", start.elapsed());
    println!("Latency: {:?}", start.elapsed().as_nanos() / 10_000_000.0 as u128);
}

#[test]
fn test_for_same_book_with_multiple_levels() {
    let mut orderbook_manager = OrderBookManager::new();

    orderbook_manager.add_order(OrderId(0), BookId(1), Qty(800), 500, true);
    orderbook_manager.add_order(OrderId(1), BookId(1), Qty(50), 600, true);
    orderbook_manager.add_order(OrderId(2), BookId(1), Qty(26), 600, true);
    assert_eq!(Qty(800), size_at(&orderbook_manager, 0));

    orderbook_manager.remove_order(OrderId(2));
    assert_eq!(Qty(50), size_at(&orderbook_manager, 1));

    orderbook_manager.cancel_order(OrderId(0), Qty(100));
    assert_eq!(Qty(700), size_at(&orderbook_manager, 0));

    orderbook_manager.remove_order(OrderId(1));
    assert_eq!(Qty(0), size_at(&orderbook_manager, 1));

    orderbook_manager.add_order(OrderId(3), BookId(1), Qty(50), 800, true);
    orderbook_manager.add_order(OrderId(4), BookId(1), Qty(26), 600, true);
    assert_eq!(Qty(50), size_at(&orderbook_manager, 1));
    assert_eq!(Qty(26), size_at(&orderbook_manager, 2));
    orderbook_manager.remove_order(OrderId(3));
    assert_eq!(Qty(0), size_at(&orderbook_manager, 1));
    orderbook_manager.remove_order(OrderId(4));
    assert_eq!(Qty(0), size_at(&orderbook_manager, 2));
    orderbook_manager.remove_order(OrderId(0));
    assert_eq!(Qty(0), size_at(&orderbook_manager, 0));
    orderbook_manager.add_order(OrderId(5), BookId(1), Qty(50), 1500, true);
    orderbook_manager.add_order(OrderId(6), BookId(1), Qty(26), 500, true);
    assert_eq!(Qty(50), size_at(&orderbook_manager, 0));
    assert_eq!(Qty(26), size_at(&orderbook_manager, 2));
    assert_eq!(Qty(0), size_at(&orderbook_manager, 1));
    orderbook_manager.add_order(OrderId(6), BookId(1), Qty(86), 1400, true);
    assert_eq!(Qty(86), size_at(&orderbook_manager, 1));
    orderbook_manager.add_order(OrderId(6), BookId(1), Qty(96), 1300, true);
    assert_eq!(Qty(96), size_at(&orderbook_manager, 3));
}

#[test]
fn test_for_same_book_and_level() {
    let mut orderbook_manager = OrderBookManager::new();

    orderbook_manager.add_order(OrderId(0), BookId(1), Qty(800), 500, true);
    orderbook_manager.add_order(OrderId(1), BookId(1), Qty(50), 500, true);
    orderbook_manager.add_order(OrderId(2), BookId(1), Qty(26), 500, true);
    assert_eq!(Qty(876), size_at(&orderbook_manager, 0));

    orderbook_manager.remove_order(OrderId(2));
    assert_eq!(Qty(850), size_at(&orderbook_manager, 0));

    orderbook_manager.cancel_order(OrderId(0), Qty(100));
    assert_eq!(Qty(750), size_at(&orderbook_manager, 0));

    orderbook_manager.cancel_order(OrderId(1), Qty(50));
    assert_eq!(Qty(700), size_at(&orderbook_manager, 0));

    orderbook_manager.add_order(OrderId(3), BookId(1), Qty(50), 500, true);
    orderbook_manager.add_order(OrderId(4), BookId(1), Qty(26), 500, true);
    assert_eq!(Qty(776), size_at(&orderbook_manager, 0));

    orderbook_manager.remove_order(OrderId(3));
    assert_eq!(Qty(726), size_at(&orderbook_manager, 0));

    orderbook_manager.remove_order(OrderId(4));
    assert_eq!(Qty(700), size_at(&orderbook_manager, 0));

    orderbook_manager.remove_order(OrderId(0));
    assert_eq!(Qty(0), size_at(&orderbook_manager, 0));

    orderbook_manager.add_order(OrderId(5), BookId(1), Qty(50), 500, true);
    orderbook_manager.add_order(OrderId(6), BookId(1), Qty(26), 500, true);
    assert_eq!(Qty(76), size_at(&orderbook_manager, 0));
    orderbook_manager.execute_order(OrderId(5), Qty(50));
    assert_eq!(Qty(26), size_at(&orderbook_manager, 0));
    orderbook_manager.execute_order(OrderId(6), Qty(10));
    assert_eq!(Qty(16), size_at(&orderbook_manager, 0));
    assert_eq!(1, bids_len(&orderbook_manager, 1))
}

fn scenario_one() -> OrderBookManager {
    let mut m = OrderBookManager::new();
    m.add_order(OrderId(0), BookId(1), Qty(800), 500, true);
    m.add_order(OrderId(1), BookId(1), Qty(50), 600, true);
    m.add_order(OrderId(2), BookId(1), Qty(26), 600, true);
    m
}

#[test]
fn two_bid_levels_aggregate() {
    let m = scenario_one();
    assert_eq!(size_at(&m, 0), Qty(800));
    assert_eq!(size_at(&m, 1), Qty(76));
    assert_eq!(bids_len(&m, 1), 2);
    assert_eq!(bid_prices(&m, 1), vec![500, 600]);
}

#[test]
fn remove_cancel_remove_sequence() {
    let mut m = scenario_one();
    m.remove_order(OrderId(2));
    assert_eq!(size_at(&m, 1), Qty(50));
    m.cancel_order(OrderId(0), Qty(100));
    assert_eq!(size_at(&m, 0), Qty(700));
    assert_eq!(m.oid_map.get(OrderId(0)).unwrap().qty(), Qty(700));
    m.remove_order(OrderId(1));
    assert_eq!(size_at(&m, 1), Qty(0));
    assert_eq!(bids_len(&m, 1), 1);
    // the freed handle is handed out again
    m.add_order(OrderId(9), BookId(1), Qty(5), 900, true);
    assert_eq!(m.oid_map.get(OrderId(9)).unwrap().level_id(), LevelId(1));
}

#[test]
fn single_level_then_replace() {
    let mut m = OrderBookManager::new();
    m.add_order(OrderId(0), BookId(1), Qty(800), 500, true);
    m.add_order(OrderId(1), BookId(1), Qty(50), 500, true);
    m.add_order(OrderId(2), BookId(1), Qty(26), 500, true);
    assert_eq!(size_at(&m, 0), Qty(876));
    assert_eq!(bids_len(&m, 1), 1);
    m.replace_order(OrderId(2), OrderId(3), Qty(50), 400);
    assert_eq!(size_at(&m, 0), Qty(850));
    assert_eq!(size_at(&m, 1), Qty(50));
    assert_eq!(bids_len(&m, 1), 2);
    assert_eq!(bid_prices(&m, 1), vec![400, 500]);
    assert!(m.oid_map.get(OrderId(2)).is_none());
    assert_eq!(m.oid_map.get(OrderId(3)).unwrap().book_id(), BookId(1));
}

#[test]
fn replace_keeps_ask_side() {
    let mut m = OrderBookManager::new();
    m.add_order(OrderId(0), BookId(3), Qty(10), 700, false);
    m.replace_order(OrderId(0), OrderId(1), Qty(20), 650);
    let book = m.books[3].as_ref().unwrap();
    assert_eq!(book.asks.len(), 1);
    assert_eq!(book.asks.get(0).price(), Price(-650));
    assert_eq!(book.bids.len(), 0);
    assert_eq!(size_at(&m, 0), Qty(20));
}

#[test]
fn replace_of_unknown_order_adds_to_book_zero_bid() {
    let mut m = OrderBookManager::new();
    m.replace_order(OrderId(5), OrderId(6), Qty(20), 650);
    assert_eq!(bid_prices(&m, 0), vec![650]);
    assert_eq!(m.oid_map.get(OrderId(6)).unwrap().qty(), Qty(20));
}

#[test]
fn add_then_remove_restores_levels() {
    let mut m = scenario_one();
    m.add_order(OrderId(7), BookId(1), Qty(40), 550, true);
    assert_eq!(bid_prices(&m, 1), vec![500, 550, 600]);
    m.remove_order(OrderId(7));
    assert_eq!(bid_prices(&m, 1), vec![500, 600]);
    assert_eq!(size_at(&m, 0), Qty(800));
    assert_eq!(size_at(&m, 1), Qty(76));
    assert!(m.oid_map.get(OrderId(7)).is_none());
}

#[test]
fn add_then_cancel_all_restores_levels() {
    let mut m = scenario_one();
    m.add_order(OrderId(7), BookId(1), Qty(40), 600, true);
    assert_eq!(size_at(&m, 1), Qty(116));
    m.cancel_order(OrderId(7), Qty(40));
    assert_eq!(size_at(&m, 1), Qty(76));
    assert_eq!(bids_len(&m, 1), 2);
    m.add_order(OrderId(8), BookId(1), Qty(40), 700, true);
    m.cancel_order(OrderId(8), Qty(40));
    assert_eq!(bid_prices(&m, 1), vec![500, 600]);
}

#[test]
fn add_then_execute_all_removes_order() {
    let mut m = scenario_one();
    m.add_order(OrderId(7), BookId(1), Qty(40), 500, true);
    assert_eq!(size_at(&m, 0), Qty(840));
    m.execute_order(OrderId(7), Qty(40));
    assert!(m.oid_map.get(OrderId(7)).is_none());
    assert_eq!(size_at(&m, 0), Qty(800));
}

#[test]
fn partial_cancel_keeps_residue() {
    let mut m = scenario_one();
    m.cancel_order(OrderId(1), Qty(20));
    assert_eq!(m.oid_map.get(OrderId(1)).unwrap().qty(), Qty(30));
    assert_eq!(size_at(&m, 1), Qty(56));
}

#[test]
fn cancel_more_than_held_removes_order() {
    let mut m = scenario_one();
    m.cancel_order(OrderId(1), Qty(80));
    assert!(m.oid_map.get(OrderId(1)).is_none());
    assert_eq!(size_at(&m, 1), Qty(26));
}

#[test]
fn execute_full_and_partial() {
    let mut m = scenario_one();
    m.execute_order(OrderId(1), Qty(50));
    assert!(m.oid_map.get(OrderId(1)).is_none());
    assert_eq!(size_at(&m, 1), Qty(26));
    m.execute_order(OrderId(2), Qty(6));
    assert_eq!(m.oid_map.get(OrderId(2)).unwrap().qty(), Qty(20));
    assert_eq!(size_at(&m, 1), Qty(20));
}

#[test]
fn bid_above_all_goes_to_tail() {
    let mut m = scenario_one();
    m.add_order(OrderId(5), BookId(1), Qty(1), 900, true);
    assert_eq!(bid_prices(&m, 1), vec![500, 600, 900]);
}

#[test]
fn bid_below_all_goes_to_head() {
    let mut m = scenario_one();
    m.add_order(OrderId(5), BookId(1), Qty(1), 100, true);
    assert_eq!(bid_prices(&m, 1), vec![100, 500, 600]);
}

#[test]
fn existing_price_reuses_level() {
    let mut m = scenario_one();
    m.add_order(OrderId(5), BookId(1), Qty(4), 600, true);
    assert_eq!(m.oid_map.get(OrderId(5)).unwrap().level_id(), LevelId(1));
    assert!(m.level_pool.get(LevelId(2)).is_none());
    assert_eq!(size_at(&m, 1), Qty(80));
}

#[test]
fn asks_ascend_with_best_at_tail() {
    let mut m = OrderBookManager::new();
    m.add_order(OrderId(0), BookId(2), Qty(1), 300, false);
    m.add_order(OrderId(1), BookId(2), Qty(1), 100, false);
    m.add_order(OrderId(2), BookId(2), Qty(1), 200, false);
    let asks = &m.books[2].as_ref().unwrap().asks;
    let prices: Vec<i32> = (0..asks.len()).map(|i| asks.get(i).price().value()).collect();
    assert_eq!(prices, vec![-300, -200, -100]);
}

#[test]
fn books_are_independent() {
    let mut m = OrderBookManager::new();
    m.add_order(OrderId(0), BookId(1), Qty(10), 500, true);
    m.add_order(OrderId(1), BookId(2), Qty(20), 500, true);
    assert_eq!(size_at(&m, 0), Qty(10));
    assert_eq!(size_at(&m, 1), Qty(20));
    m.remove_order(OrderId(0));
    assert_eq!(bids_len(&m, 1), 0);
    assert_eq!(bids_len(&m, 2), 1);
}

#[test]
fn unknown_ids_change_nothing() {
    let mut m = scenario_one();
    m.remove_order(OrderId(77));
    m.cancel_order(OrderId(77), Qty(5));
    m.execute_order(OrderId(77), Qty(5));
    assert_eq!(size_at(&m, 0), Qty(800));
    assert_eq!(size_at(&m, 1), Qty(76));
}

#[test]
fn level_size_reads_aggregate() {
    let m = scenario_one();
    assert_eq!(m.level_size(BookId(1), 600, true), Some(Qty(76)));
    assert_eq!(m.level_size(BookId(1), 500, true), Some(Qty(800)));
    assert_eq!(m.level_size(BookId(1), 600, false), None);
    assert_eq!(m.level_size(BookId(2), 600, true), None);
    assert!(m.level_pool.can_alloc_level());
}

#[test]
fn default_manager_is_empty() {
    let m = OrderBookManager::default();
    assert!(m.books.iter().all(|b| b.is_none()));
    assert!(m.oid_map.get(OrderId(0)).is_none());
    assert!(m.level_pool.get(LevelId(0)).is_none());
}

#[test]
fn last_book_and_largest_price() {
    let mut m = OrderBookManager::new();
    let last = (itch_lob::utils::MAX_BOOKS - 1) as u16;
    m.add_order(OrderId(4096), BookId(last), Qty(u32::MAX), i32::MAX as u32, false);
    assert_eq!(m.level_size(BookId(last), i32::MAX as u32, false), Some(Qty(u32::MAX)));
    assert_eq!(m.books[last as usize].as_ref().unwrap().asks.get(0).price(), Price(-i32::MAX));
    m.execute_order(OrderId(4096), Qty(u32::MAX));
    assert_eq!(m.books[last as usize].as_ref().unwrap().asks.len(), 0);
}
