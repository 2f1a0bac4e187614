//! The order-book capability: the contract every book implementation meets.

use vstd::prelude::*;

use crate::matching::all_positive;
use crate::matching::best_of;
use crate::matching::book_after_match;
use crate::matching::insert_by_priority;
use crate::matching::match_trades;
use crate::matching::remaining_after;
use crate::matching::sorted_by_priority;
use crate::matching::sum_qty;
use crate::models::BestOrder;
use crate::models::Order;
use crate::models::OrderSide;
use crate::models::Trade;

verus! {

/// The book invariant, holding of both sides whenever no operation is in
/// flight: each side is priority-sorted best-first, only positive quantities
/// rest, and each side's total quantity stays small enough that a level can
/// be aggregated without overflowing `u64`.
pub open spec fn book_inv(buys: Seq<Order>, sells: Seq<Order>) -> bool {
    &&& sorted_by_priority(OrderSide::Buy, buys)
    &&& sorted_by_priority(OrderSide::Sell, sells)
    &&& all_positive(buys)
    &&& all_positive(sells)
    &&& sum_qty(buys) <= u64::MAX
    &&& sum_qty(sells) <= u64::MAX
}

/// The side sequence an order of side `side` rests on.
pub open spec fn own_side(buys: Seq<Order>, sells: Seq<Order>, side: OrderSide) -> Seq<Order> {
    match side {
        OrderSide::Buy => buys,
        OrderSide::Sell => sells,
    }
}

/// The side sequence an order of side `side` matches against.
pub open spec fn opposite_side(buys: Seq<Order>, sells: Seq<Order>, side: OrderSide) -> Seq<
    Order,
> {
    match side {
        OrderSide::Buy => sells,
        OrderSide::Sell => buys,
    }
}

/// The side opposite to `side`.
pub open spec fn opposite_of(side: OrderSide) -> OrderSide {
    match side {
        OrderSide::Buy => OrderSide::Sell,
        OrderSide::Sell => OrderSide::Buy,
    }
}

/// The remainder of `order` that rests after matching left `rem` unfilled: the
/// same order, with its original side and timestamp, reduced to `rem`.
pub open spec fn rest_of(order: Order, rem: u64) -> Order {
    Order {
        id: order.id,
        side: order.side,
        price: order.price,
        quantity: rem,
        timestamp: order.timestamp,
    }
}

/// Everything one submission does, stated over both sides before and after:
/// the trades are exactly the front-first scan of the opposite side, the
/// opposite side keeps exactly its unconsumed orders, and the unfilled
/// remainder — when there is one — rests at its priority position on the
/// order's own side.
pub open spec fn place_order_post(
    buys0: Seq<Order>,
    sells0: Seq<Order>,
    order: Order,
    buys1: Seq<Order>,
    sells1: Seq<Order>,
    trades: Seq<Trade>,
) -> bool {
    let opp0 = opposite_side(buys0, sells0, order.side);
    let own0 = own_side(buys0, sells0, order.side);
    let opp1 = opposite_side(buys1, sells1, order.side);
    let own1 = own_side(buys1, sells1, order.side);
    let rem = remaining_after(opp0, order, order.quantity);
    &&& trades == match_trades(opp0, order, order.quantity)
    &&& opp1 == book_after_match(opp0, order, order.quantity)
    &&& own1 == (if rem > 0 {
        insert_by_priority(own0, rest_of(order, rem), order.side)
    } else {
        own0
    })
}

/// The matching-engine capability: submit an order, query either side's best
/// level. It is a polymorphic interface with one production implementation,
/// so tests can substitute doubles with the same contract.
pub trait OrderBook: Sized {
    /// The resting buy orders, best priority first.
    spec fn buys(&self) -> Seq<Order>;

    /// The resting sell orders, best priority first.
    spec fn sells(&self) -> Seq<Order>;

    /// Submits `order`: matches it against the opposite side under price-time
    /// priority, rests the remainder on its own side, and returns the trades
    /// this submission generated, in the order they occurred (best price,
    /// then oldest, first). Total: every submission succeeds. The quantity
    /// bound only keeps the book's running totals within `u64`.
    fn place_order(&mut self, order: Order) -> (trades: Vec<Trade>)
        requires
            book_inv(old(self).buys(), old(self).sells()),
            sum_qty(own_side(old(self).buys(), old(self).sells(), order.side)) + order.quantity
                <= u64::MAX,
        ensures
            book_inv(final(self).buys(), final(self).sells()),
            place_order_post(
                old(self).buys(),
                old(self).sells(),
                order,
                final(self).buys(),
                final(self).sells(),
                trades@,
            ),
    ;

    /// The best (highest-price) buy level: absent exactly when no buy order
    /// rests, otherwise the best price with the total quantity resting at it.
    fn best_buy(&self) -> (r: Option<BestOrder>)
        requires
            book_inv(self.buys(), self.sells()),
        ensures
            r == best_of(self.buys()),
    ;

    /// The best (lowest-price) sell level: absent exactly when no sell order
    /// rests, otherwise the best price with the total quantity resting at it.
    fn best_sell(&self) -> (r: Option<BestOrder>)
        requires
            book_inv(self.buys(), self.sells()),
        ensures
            r == best_of(self.sells()),
    ;
}

} // verus!
