use coinbase_pro::datastructs::orders::Side;
use coinbase_pro::datastructs::websocket::{Level2Change, Level2Snapshot, Quote};
use coinbase_pro::order_book::{OrderBook, OrderBookEntry, RealFloat};

fn entry(price: f64, size: f64) -> OrderBookEntry {
    match OrderBookEntry::try_from_bits(price.to_bits(), size.to_bits()) {
        Ok(e) => e,
        Err(_) => panic!("not finite"),
    }
}

fn quote(price: f64, size: f64) -> Quote {
    Quote { price: price.to_bits(), size: size.to_bits() }
}

fn value(f: RealFloat) -> f64 {
    f64::from_bits(f.to_bits())
}

fn prices(levels: &Vec<OrderBookEntry>) -> Vec<f64> {
    levels.iter().map(|e| value(e.price())).collect()
}

fn book(bids: Vec<(f64, f64)>, asks: Vec<(f64, f64)>) -> OrderBook {
    OrderBook::from_snapshot(Level2Snapshot {
        product_id: "ETH-USD".to_string(),
        bids: bids.into_iter().map(|(p, s)| quote(p, s)).collect(),
        asks: asks.into_iter().map(|(p, s)| quote(p, s)).collect(),
    })
}

#[test]
fn order_book_test_2() {
    let asks = vec![entry(6.0, 1.0), entry(5.0, 1.0), entry(4.0, 1.0)];
    assert_eq!(OrderBook::find_ask_index(&asks, &entry(5.0, 1.0)), 1);
    assert_eq!(OrderBook::find_ask_index(&asks, &entry(4.0, 1.0)), 2);
    assert_eq!(OrderBook::find_ask_index(&asks, &entry(3.0, 1.0)), 3);

    let bids = vec![entry(0.0, 1.0), entry(1.0, 1.0), entry(2.0, 1.0)];
    assert_eq!(OrderBook::find_bid_index(&bids, &entry(1.0, 1.0)), 1);
    assert_eq!(OrderBook::find_bid_index(&bids, &entry(0.0, 1.0)), 0);
    assert_eq!(OrderBook::find_bid_index(&bids, &entry(3.0, 1.0)), 3);
}

#[test]
fn order_book_test_3() {
    let mut order_book = book(vec![(0.0, 1.0), (1.0, 1.0), (2.0, 1.0)], vec![(6.0, 1.0), (5.0, 1.0), (4.0, 1.0)]);

    order_book.apply_change(Side::BUY, entry(0.0, 0.0));
    assert_eq!(order_book.bids().len(), 2);

    order_book.apply_change(Side::BUY, entry(1.0, 10.0));
    assert_eq!(order_book.bids().len(), 2);
    assert_eq!(value(order_book.bids()[0].size()), 10.0);

    order_book.apply_change(Side::BUY, entry(0.0, 11.0));
    assert_eq!(order_book.bids().len(), 3);
    assert_eq!(value(order_book.bids()[0].size()), 11.0);

    order_book.apply_change(Side::BUY, entry(0.0, 0.0));
    order_book.apply_change(Side::BUY, entry(1.0, 0.0));
    order_book.apply_change(Side::BUY, entry(2.0, 0.0));
    assert_eq!(order_book.bids().len(), 0);

    order_book.apply_change(Side::BUY, entry(2.0, 0.0));
    assert_eq!(order_book.bids().len(), 1);
}

#[test]
fn snapshot_orders_both_sides_and_drops_non_finite() {
    let order_book = book(
        vec![(1955.78, 1.3), (1955.80, 0.19), (f64::NAN, 1.0), (1955.62, 2.2)],
        vec![(1955.87, 0.1), (1955.81, 0.001), (1956.0, f64::INFINITY), (1955.99, 0.2)],
    );
    assert_eq!(prices(order_book.bids()), vec![1955.62, 1955.78, 1955.80]);
    assert_eq!(prices(order_book.asks()), vec![1955.99, 1955.87, 1955.81]);
    assert_eq!(value(order_book.best_bid()), 1955.80);
    assert_eq!(value(order_book.best_ask()), 1955.81);
}

#[test]
fn snapshot_keeps_equal_prices_in_order() {
    let order_book = book(vec![(2.0, 1.0), (1.0, 5.0), (2.0, 3.0)], vec![]);
    let sizes: Vec<f64> = order_book.bids().iter().map(|e| value(e.size())).collect();
    assert_eq!(sizes, vec![5.0, 1.0, 3.0]);
}

#[test]
fn empty_book_has_zero_best_prices() {
    let order_book = book(vec![], vec![]);
    assert_eq!(value(order_book.best_bid()), 0.0);
    assert_eq!(value(order_book.best_ask()), 0.0);
}

#[test]
fn level2_changes_apply_until_unknown_side() {
    let mut order_book = book(vec![(1.0, 1.0)], vec![(3.0, 1.0)]);
    let changes = vec![
        Level2Change { side: "buy".to_string(), price: 2.0f64.to_bits(), size: 4.0f64.to_bits() },
        Level2Change { side: "sell".to_string(), price: 3.0f64.to_bits(), size: 0.0f64.to_bits() },
        Level2Change { side: "neither".to_string(), price: 9.0f64.to_bits(), size: 9.0f64.to_bits() },
        Level2Change { side: "buy".to_string(), price: 5.0f64.to_bits(), size: 1.0f64.to_bits() },
    ];
    let updated = order_book.apply_change_l2_changes(changes);
    assert!(updated);
    assert_eq!(prices(order_book.bids()), vec![1.0, 2.0]);
    assert_eq!(prices(order_book.asks()), Vec::<f64>::new());
}

#[test]
fn level2_change_with_unknown_side_changes_nothing() {
    let mut order_book = book(vec![(1.0, 1.0)], vec![(3.0, 1.0)]);
    let change = Level2Change { side: "BUY".to_string(), price: 2.0f64.to_bits(), size: 4.0f64.to_bits() };
    assert!(!order_book.apply_change_l2_change(change));
    assert_eq!(prices(order_book.bids()), vec![1.0]);
    let change = Level2Change { side: "sell".to_string(), price: 2.5f64.to_bits(), size: 4.0f64.to_bits() };
    assert!(order_book.apply_change_l2_change(change));
    assert_eq!(prices(order_book.asks()), vec![3.0, 2.5]);
}

#[test]
fn removing_a_level_does_not_count_as_update() {
    let mut order_book = book(vec![(1.0, 1.0), (2.0, 1.0)], vec![]);
    assert!(!order_book.apply_change(Side::BUY, entry(1.0, 0.0)));
    assert!(order_book.apply_change(Side::BUY, entry(1.5, 2.0)));
    assert_eq!(prices(order_book.bids()), vec![1.5, 2.0]);
}

#[test]
fn negative_zero_is_the_same_price_as_zero() {
    let mut order_book = book(vec![(0.0, 1.0), (1.0, 1.0)], vec![]);
    order_book.apply_change(Side::BUY, entry(-0.0, 7.0));
    assert_eq!(order_book.bids().len(), 2);
    assert_eq!(value(order_book.bids()[0].size()), 7.0);
    let negatives = vec![entry(-3.0, 1.0), entry(-1.0, 1.0), entry(2.0, 1.0)];
    assert_eq!(OrderBook::find_bid_index(&negatives, &entry(-2.0, 1.0)), 1);
}

#[test]
fn non_finite_values_are_refused() {
    assert!(RealFloat::try_from_bits(f64::NAN.to_bits()).is_err());
    assert!(RealFloat::try_from_bits(f64::NEG_INFINITY.to_bits()).is_err());
    assert!(RealFloat::try_from_bits(1.5f64.to_bits()).is_ok());
    assert!(OrderBookEntry::try_from_quote(&quote(1.0, f64::INFINITY)).is_err());
    assert!(RealFloat::zero().is_zero());
}
