use limit_order_book::LimitOrderBook;
use limit_order_book::Order;
use limit_order_book::OrderBook;
use limit_order_book::OrderSide;
use limit_order_book::Trade;

fn order(id: u64, side: OrderSide, price: u64, quantity: u64, timestamp: u128) -> Order {
    Order { id, side, price, quantity, timestamp }
}

#[test]
fn best_order_levels_on_empty_book_are_none() {
    let order_book = LimitOrderBook::new();

    let best_buy = order_book.best_buy();
    let best_sell = order_book.best_sell();

    assert!(best_buy.is_none(), "best_buy should be None on empty book");
    assert!(best_sell.is_none(), "best_sell should be None on empty book");
}

#[test]
fn remainder_after_filling_order() {
    let mut order_book = LimitOrderBook::new();

    let trades = order_book.place_order(order(1, OrderSide::Sell, 100, 5, 1));
    assert_eq!(trades.len(), 0);

    let trades = order_book.place_order(order(2, OrderSide::Buy, 101, 8, 2));
    assert_eq!(trades.len(), 1);

    let best_sell = order_book.best_sell();
    assert!(best_sell.is_none(), "All sells at 100 should be consumed");

    let best_buy = order_book.best_buy().expect("Remainder buy should rest");
    assert_eq!(best_buy.price, 101);
    assert_eq!(best_buy.total_quantity, 3);
}

#[test]
fn non_matching_orders_are_added_to_order_book() {
    let mut order_book = LimitOrderBook::new();

    let _ = order_book.place_order(order(1, OrderSide::Buy, 100, 5, 1));
    let _ = order_book.place_order(order(2, OrderSide::Sell, 105, 7, 2));

    let bb = order_book.best_buy().expect("best_buy should exist");
    assert_eq!(bb.price, 100);
    assert_eq!(bb.total_quantity, 5);

    let bs = order_book.best_sell().expect("best_sell should exist");
    assert_eq!(bs.price, 105);
    assert_eq!(bs.total_quantity, 7);
}

#[test]
fn multiple_orders_same_price_level_are_aggregated_in_best() {
    let mut order_book = LimitOrderBook::new();

    let _ = order_book.place_order(order(1, OrderSide::Buy, 100, 2, 1));
    let _ = order_book.place_order(order(2, OrderSide::Buy, 100, 3, 2));
    let _ = order_book.place_order(order(3, OrderSide::Buy, 100, 3, 2));

    let bb = order_book.best_buy().expect("best_buy should exist");
    assert_eq!(bb.price, 100);
    assert_eq!(bb.total_quantity, 8);
}

#[test]
fn buy_hits_lowest_sell_first_then_next_level() {
    let mut order_book = LimitOrderBook::new();

    let _ = order_book.place_order(order(1, OrderSide::Sell, 100, 3, 1));
    let _ = order_book.place_order(order(2, OrderSide::Sell, 101, 4, 2));

    let trades = order_book.place_order(order(3, OrderSide::Buy, 101, 6, 3));
    assert_eq!(trades.len(), 2, "Should produce two trades across two levels");
    // The lowest sell level goes first, and the partially consumed order at
    // the next level is what remains.
    assert_eq!(trades, vec![Trade::new(1, 3, 100, 3), Trade::new(2, 3, 101, 3)]);

    let best_sell = order_book.best_sell().expect("One sell remainder expected");
    assert_eq!(best_sell.price, 101);
    assert_eq!(best_sell.total_quantity, 1);

    let best_buy = order_book.best_buy();
    assert!(best_buy.is_none(), "No buy orders should remain");
}

#[test]
fn older_order_wins_when_same_price_level() {
    let mut order_book = LimitOrderBook::new();

    let _ = order_book.place_order(order(1, OrderSide::Buy, 100, 4, 1));
    let _ = order_book.place_order(order(2, OrderSide::Buy, 100, 5, 2));
    let _ = order_book.place_order(order(3, OrderSide::Buy, 101, 1, 3));

    let trades = order_book.place_order(order(4, OrderSide::Sell, 100, 6, 3));
    let expected_trades = vec![
        Trade::new(3, 4, 101, 1),
        Trade::new(1, 4, 100, 4),
        Trade::new(2, 4, 100, 1),
    ];
    assert_eq!(trades.len(), 3, "Should hit all buy levels");
    assert_eq!(trades, expected_trades);

    let best_buy = order_book.best_buy().expect("Remainder on 100 price level");
    assert_eq!(best_buy.price, 100);
    assert_eq!(best_buy.total_quantity, 4);

    let best_sell = order_book.best_sell();
    assert!(best_sell.is_none(), "No resting sells expected");
}

#[test]
fn single_sell_fills_at_resting_price() {
    let mut order_book = LimitOrderBook::new();

    let trades = order_book.place_order(order(1, OrderSide::Sell, 100, 5, 1));
    assert!(trades.is_empty());

    let trades = order_book.place_order(order(2, OrderSide::Buy, 101, 8, 2));
    assert_eq!(trades, vec![Trade::new(1, 2, 100, 5)]);

    assert!(order_book.best_sell().is_none());
    let bb = order_book.best_buy().expect("remainder should rest");
    assert_eq!(bb.price, 101);
    assert_eq!(bb.total_quantity, 3);
}

#[test]
fn aggregation_spans_all_orders_at_best_price() {
    let mut order_book = LimitOrderBook::new();

    let _ = order_book.place_order(order(1, OrderSide::Buy, 100, 5, 1));
    let _ = order_book.place_order(order(2, OrderSide::Buy, 100, 3, 2));
    let _ = order_book.place_order(order(3, OrderSide::Buy, 100, 3, 3));

    let bb = order_book.best_buy().expect("best_buy should exist");
    assert_eq!(bb.price, 100);
    assert_eq!(bb.total_quantity, 11);
}

#[test]
fn sell_side_aggregation_spans_equal_prices() {
    let mut order_book = LimitOrderBook::new();

    let _ = order_book.place_order(order(1, OrderSide::Sell, 100, 4, 1));
    let _ = order_book.place_order(order(2, OrderSide::Sell, 100, 6, 2));
    let _ = order_book.place_order(order(3, OrderSide::Sell, 102, 9, 3));

    let bs = order_book.best_sell().expect("best_sell should exist");
    assert_eq!(bs.price, 100);
    assert_eq!(bs.total_quantity, 10);
}

#[test]
fn traded_plus_resting_equals_submitted() {
    let mut order_book = LimitOrderBook::new();

    let _ = order_book.place_order(order(1, OrderSide::Sell, 100, 3, 1));
    let _ = order_book.place_order(order(2, OrderSide::Sell, 101, 4, 2));

    let submitted: u64 = 9;
    let trades = order_book.place_order(order(3, OrderSide::Buy, 101, submitted, 3));
    let traded: u64 = trades.iter().map(|t| t.quantity).sum();
    assert_eq!(traded, 7);

    let resting = order_book.best_buy().expect("unfilled remainder should rest");
    assert_eq!(resting.price, 101);
    assert_eq!(traded + resting.total_quantity, submitted);
}

#[test]
fn zero_quantity_order_adds_nothing() {
    let mut order_book = LimitOrderBook::new();

    let trades = order_book.place_order(order(1, OrderSide::Buy, 100, 0, 1));
    assert!(trades.is_empty());
    assert!(order_book.best_buy().is_none());
    assert!(order_book.best_sell().is_none());
}

#[test]
fn older_sell_at_equal_price_fills_first() {
    let mut order_book = LimitOrderBook::new();

    let _ = order_book.place_order(order(1, OrderSide::Sell, 100, 2, 5));
    let _ = order_book.place_order(order(2, OrderSide::Sell, 100, 2, 3));

    let trades = order_book.place_order(order(3, OrderSide::Buy, 100, 1, 6));
    assert_eq!(trades, vec![Trade::new(2, 3, 100, 1)]);
}
