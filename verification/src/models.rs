//! Value types of the book: sides, orders, trades and best-level aggregates.

use vstd::prelude::*;

verus! {

/// Which side of the book an order belongs to. The side decides which
/// collection an order rests in and which comparator orders that collection.
#[derive(Clone, Copy, Debug, PartialEq, Eq, Structural)]
pub enum OrderSide {
    Buy,
    Sell,
}

/// A limit order, incoming or resting.
///
/// `id` is assumed unique across the book's lifetime. `timestamp` is assigned
/// when the order is created, never changes, and breaks price ties (older
/// first). While an order rests its quantity stays above zero; an order that
/// reaches zero is removed from the book.
#[derive(Clone, Copy, Debug)]
pub struct Order {
    pub id: u64,
    pub side: OrderSide,
    pub price: u64,
    pub quantity: u64,
    pub timestamp: u128,
}

impl Order {
    /// Builds an order. The timestamp is passed in by the caller, so the clock
    /// stays an explicit dependency and tests can pin times deterministically.
    pub fn new(id: u64, side: OrderSide, price: u64, quantity: u64, timestamp: u128) -> (r: Order)
        ensures
            r == (Order { id, side, price, quantity, timestamp }),
    {
        Order { id, side, price, quantity, timestamp }
    }
}

/// An immutable record of one fill: `maker_id` is the resting order's id,
/// `taker_id` the incoming order's id, and `price` the resting order's price.
#[derive(Clone, Copy, Debug, PartialEq, Eq, Structural)]
pub struct Trade {
    pub maker_id: u64,
    pub taker_id: u64,
    pub price: u64,
    pub quantity: u64,
}

impl Trade {
    pub fn new(maker_id: u64, taker_id: u64, price: u64, quantity: u64) -> (r: Trade)
        ensures
            r == (Trade { maker_id, taker_id, price, quantity }),
    {
        Trade { maker_id, taker_id, price, quantity }
    }
}

/// A derived snapshot of one side's best price level: the best price and the
/// summed quantity of every resting order at that price. Recomputed on each
/// query, never stored.
#[derive(Clone, Copy, Debug)]
pub struct BestOrder {
    pub price: u64,
    pub total_quantity: u64,
}

/// A submission as the presentation layer hands it over: an order without a
/// timestamp. Pairing it with a clock reading yields the `Order` the engine
/// works on.
#[derive(Clone, Copy, Debug)]
pub struct PlaceOrderRequest {
    pub id: u64,
    pub side: OrderSide,
    pub price: u64,
    pub quantity: u64,
}

impl PlaceOrderRequest {
    /// Pairs the submission with a clock-supplied timestamp.
    pub fn to_order(self, timestamp: u128) -> (r: Order)
        ensures
            r == (Order {
                id: self.id,
                side: self.side,
                price: self.price,
                quantity: self.quantity,
                timestamp,
            }),
    {
        Order::new(self.id, self.side, self.price, self.quantity, timestamp)
    }
}

} // verus!
