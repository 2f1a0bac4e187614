//! A single-instrument limit order book.
//!
//! Incoming orders are matched against resting opposite-side interest under
//! price-time priority; what remains of a submission rests on its own side.
//! Every operation carries a contract that pins down the trades it reports
//! and the book state it leaves behind.

pub mod limit_order_book;
pub mod matching;
pub mod models;
pub mod order_book;

pub use limit_order_book::LimitOrderBook;
pub use matching::add_order;
pub use matching::best_level;
pub use matching::match_order;
pub use models::BestOrder;
pub use models::Order;
pub use models::OrderSide;
pub use models::PlaceOrderRequest;
pub use models::Trade;
pub use order_book::OrderBook;
