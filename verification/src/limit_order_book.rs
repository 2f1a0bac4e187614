//! The in-memory production implementation of the order-book capability.

use vstd::prelude::*;

use crate::matching::add_order;
use crate::matching::best_level;
use crate::matching::best_of;
use crate::matching::lemma_book_after_match_inv;
use crate::matching::lemma_conservation;
use crate::matching::lemma_insert_by_priority_inv;
use crate::matching::lemma_level_qty_le_sum;
use crate::matching::lemma_sum_traded_nonneg;
use crate::matching::match_order;
use crate::matching::match_trades;
use crate::models::BestOrder;
use crate::models::Order;
use crate::models::OrderSide;
use crate::models::Trade;
use crate::order_book::book_inv;
use crate::order_book::opposite_of;
use crate::order_book::opposite_side;
use crate::order_book::own_side;
use crate::order_book::rest_of;
use crate::order_book::OrderBook;

verus! {

/// An in-memory limit order book: one priority-sorted sequence of resting
/// orders per side. Matching mutates only the opposite side, resting a
/// remainder mutates only the order's own side, so a wrapper that guards each
/// side separately can run the two phases under separate critical sections.
pub struct LimitOrderBook {
    buy_orders: Vec<Order>,
    sell_orders: Vec<Order>,
}

impl LimitOrderBook {
    /// An empty book.
    pub fn new() -> (r: LimitOrderBook)
        ensures
            book_inv(r.buys(), r.sells()),
            r.buys() == Seq::<Order>::empty(),
            r.sells() == Seq::<Order>::empty(),
    {
        let r = LimitOrderBook { buy_orders: Vec::new(), sell_orders: Vec::new() };
        proof {
            assert(r.buy_orders@ =~= Seq::<Order>::empty());
            assert(r.sell_orders@ =~= Seq::<Order>::empty());
        }
        r
    }

    /// The best level of the requested side, aggregating every resting order
    /// that shares the best price.
    fn best_order(&self, side: OrderSide) -> (r: Option<BestOrder>)
        requires
            book_inv(self.buys(), self.sells()),
        ensures
            r == best_of(own_side(self.buys(), self.sells(), side)),
    {
        match side {
            OrderSide::Buy => {
                proof {
                    if self.buy_orders@.len() > 0 {
                        lemma_level_qty_le_sum(self.buy_orders@, self.buy_orders@[0].price);
                    }
                }
                best_level(&self.buy_orders)
            },
            OrderSide::Sell => {
                proof {
                    if self.sell_orders@.len() > 0 {
                        lemma_level_qty_le_sum(self.sell_orders@, self.sell_orders@[0].price);
                    }
                }
                best_level(&self.sell_orders)
            },
        }
    }
}

impl OrderBook for LimitOrderBook {
    closed spec fn buys(&self) -> Seq<Order> {
        self.buy_orders@
    }

    closed spec fn sells(&self) -> Seq<Order> {
        self.sell_orders@
    }

    fn place_order(&mut self, order: Order) -> (trades: Vec<Trade>) {
        let ghost buys0 = self.buy_orders@;
        let ghost sells0 = self.sell_orders@;
        let (trades, remaining) = match order.side {
            OrderSide::Buy => match_order(&mut self.sell_orders, &order),
            OrderSide::Sell => match_order(&mut self.buy_orders, &order),
        };
        proof {
            let opp0 = opposite_side(buys0, sells0, order.side);
            lemma_book_after_match_inv(opp0, order, order.quantity, opposite_of(order.side));
            lemma_sum_traded_nonneg(match_trades(opp0, order, order.quantity));
            lemma_conservation(opp0, order, order.quantity);
        }
        if remaining > 0 {
            let rest = Order::new(order.id, order.side, order.price, remaining, order.timestamp);
            proof {
                let own0 = own_side(buys0, sells0, order.side);
                lemma_insert_by_priority_inv(own0, rest_of(order, remaining), order.side);
            }
            match order.side {
                OrderSide::Buy => add_order(&mut self.buy_orders, rest),
                OrderSide::Sell => add_order(&mut self.sell_orders, rest),
            }
        }
        trades
    }

    fn best_buy(&self) -> (r: Option<BestOrder>) {
        self.best_order(OrderSide::Buy)
    }

    fn best_sell(&self) -> (r: Option<BestOrder>) {
        self.best_order(OrderSide::Sell)
    }
}

} // verus!
