use limit_order_book::Order;
use limit_order_book::OrderSide;
use limit_order_book::PlaceOrderRequest;
use limit_order_book::Trade;

#[test]
fn order_new_sets_every_field() {
    let o = Order::new(7, OrderSide::Sell, 250, 12, 99);
    assert_eq!(o.id, 7);
    assert_eq!(o.side, OrderSide::Sell);
    assert_eq!(o.price, 250);
    assert_eq!(o.quantity, 12);
    assert_eq!(o.timestamp, 99);
}

#[test]
fn trade_new_sets_every_field() {
    let t = Trade::new(1, 2, 100, 5);
    assert_eq!(t, Trade { maker_id: 1, taker_id: 2, price: 100, quantity: 5 });
}

#[test]
fn request_pairs_with_clock_timestamp() {
    let request = PlaceOrderRequest { id: 4, side: OrderSide::Buy, price: 10, quantity: 3 };
    let o = request.to_order(1234);
    assert_eq!(o.id, 4);
    assert_eq!(o.side, OrderSide::Buy);
    assert_eq!(o.price, 10);
    assert_eq!(o.quantity, 3);
    assert_eq!(o.timestamp, 1234);
}
