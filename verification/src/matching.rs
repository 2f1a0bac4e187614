//! The matching algorithm and the book-maintenance rules.
//!
//! A side of the book is a sequence of resting orders kept in price-time
//! priority. Matching an incoming order scans the opposite side from the
//! front, consuming compatible resting orders; the remainder, if any, is
//! inserted into the incoming order's own side at its priority position.
//!
//! The spec functions below say, order by order, which trades a submission
//! produces and what each side looks like afterwards; the executable
//! functions are proved to realize them exactly. Each executable function
//! touches a single side, so a caller that guards each side with its own
//! lock can run the two phases of a submission under separate critical
//! sections, as the engine's concurrency model asks.

use vstd::prelude::*;

use crate::models::BestOrder;
use crate::models::Order;
use crate::models::OrderSide;
use crate::models::Trade;

verus! {

/// Price compatibility of a resting order against an incoming order of side
/// `side`: a buyer matches resting prices at or below its limit, a seller
/// resting prices at or above it.
pub open spec fn price_ok(side: OrderSide, resting_price: u64, incoming_price: u64) -> bool {
    match side {
        OrderSide::Buy => resting_price <= incoming_price,
        OrderSide::Sell => resting_price >= incoming_price,
    }
}

/// Strict price-time priority on side `side`: `a` must rest strictly ahead of
/// `b`. Better price first (highest for buys, lowest for sells); among equal
/// prices, the older timestamp first.
pub open spec fn higher_priority(side: OrderSide, a: Order, b: Order) -> bool {
    if a.price == b.price {
        a.timestamp < b.timestamp
    } else {
        match side {
            OrderSide::Buy => a.price > b.price,
            OrderSide::Sell => a.price < b.price,
        }
    }
}

/// Non-strict priority: `a` need not come after `b`.
pub open spec fn priority_le(side: OrderSide, a: Order, b: Order) -> bool {
    !higher_priority(side, b, a)
}

/// A side sequence ordered by price-time priority, best first.
pub open spec fn sorted_by_priority(side: OrderSide, s: Seq<Order>) -> bool {
    forall|i: int, j: int| 0 <= i < j < s.len() ==> priority_le(side, s[i], s[j])
}

/// Every resting order still has quantity to give.
pub open spec fn all_positive(s: Seq<Order>) -> bool {
    forall|i: int| 0 <= i < s.len() ==> s[i].quantity > 0
}

/// Total resting quantity of a side.
pub open spec fn sum_qty(s: Seq<Order>) -> int
    decreases s.len(),
{
    if s.len() == 0 {
        0
    } else {
        s[0].quantity + sum_qty(s.drop_first())
    }
}

/// Total resting quantity at one price level.
pub open spec fn level_qty(s: Seq<Order>, price: u64) -> int
    decreases s.len(),
{
    if s.len() == 0 {
        0
    } else {
        (if s[0].price == price {
            s[0].quantity as int
        } else {
            0
        }) + level_qty(s.drop_first(), price)
    }
}

/// Total quantity filled by a list of trades.
pub open spec fn sum_traded(trades: Seq<Trade>) -> int
    decreases trades.len(),
{
    if trades.len() == 0 {
        0
    } else {
        trades[0].quantity + sum_traded(trades.drop_first())
    }
}

/// The order `o` with `taken` units of quantity consumed.
pub open spec fn reduce_qty(o: Order, taken: u64) -> Order {
    Order {
        id: o.id,
        side: o.side,
        price: o.price,
        quantity: (o.quantity - taken) as u64,
        timestamp: o.timestamp,
    }
}

/// The trades generated by walking the opposite side `opp` from the front
/// with `remaining` quantity of `taker` still unfilled: the scan stops at the
/// first price-incompatible resting order or when the taker is filled; a
/// resting order larger than the remainder is consumed partially, anything
/// smaller or equal is consumed whole.
pub open spec fn match_trades(opp: Seq<Order>, taker: Order, remaining: u64) -> Seq<Trade>
    decreases opp.len(),
{
    if remaining == 0 || opp.len() == 0 || !price_ok(taker.side, opp[0].price, taker.price) {
        Seq::empty()
    } else if opp[0].quantity > remaining {
        seq![Trade { maker_id: opp[0].id, taker_id: taker.id, price: opp[0].price, quantity: remaining }]
    } else {
        seq![Trade {
            maker_id: opp[0].id,
            taker_id: taker.id,
            price: opp[0].price,
            quantity: opp[0].quantity,
        }] + match_trades(opp.drop_first(), taker, (remaining - opp[0].quantity) as u64)
    }
}

/// The quantity of `taker` still unfilled after the scan of `opp`.
pub open spec fn remaining_after(opp: Seq<Order>, taker: Order, remaining: u64) -> u64
    decreases opp.len(),
{
    if remaining == 0 || opp.len() == 0 || !price_ok(taker.side, opp[0].price, taker.price) {
        remaining
    } else if opp[0].quantity > remaining {
        0
    } else {
        remaining_after(opp.drop_first(), taker, (remaining - opp[0].quantity) as u64)
    }
}

/// The opposite side after the scan: fully consumed orders are removed, a
/// partially consumed order keeps its place with its quantity reduced, and
/// every order past the scan is untouched.
pub open spec fn book_after_match(opp: Seq<Order>, taker: Order, remaining: u64) -> Seq<Order>
    decreases opp.len(),
{
    if remaining == 0 || opp.len() == 0 || !price_ok(taker.side, opp[0].price, taker.price) {
        opp
    } else if opp[0].quantity > remaining {
        seq![reduce_qty(opp[0], remaining)] + opp.drop_first()
    } else {
        book_after_match(opp.drop_first(), taker, (remaining - opp[0].quantity) as u64)
    }
}

/// `o` inserted into `s` at its priority position on side `side`: after every
/// resting order it does not strictly beat, before the first it does. With a
/// fresh (newest) timestamp this places it last within its price level.
pub open spec fn insert_by_priority(s: Seq<Order>, o: Order, side: OrderSide) -> Seq<Order>
    decreases s.len(),
{
    if s.len() == 0 {
        seq![o]
    } else if higher_priority(side, o, s[0]) {
        seq![o] + s
    } else {
        seq![s[0]] + insert_by_priority(s.drop_first(), o, side)
    }
}

/// The best-level snapshot of a side: absent when the side is empty,
/// otherwise the front order's price together with the summed quantity of
/// every resting order at that price.
pub open spec fn best_of(s: Seq<Order>) -> Option<BestOrder> {
    if s.len() == 0 {
        None
    } else {
        Some(BestOrder { price: s[0].price, total_quantity: level_qty(s, s[0].price) as u64 })
    }
}

/// Scans the opposite side `opposite` for resting orders compatible with
/// `order`, from the front, recording a trade for each fill; consumed orders
/// are removed, a partially consumed one keeps its reduced quantity, and the
/// relative order of the survivors is preserved. Returns the trades in the
/// order they occurred and the quantity of `order` still unfilled.
pub fn match_order(opposite: &mut Vec<Order>, order: &Order) -> (r: (Vec<Trade>, u64))
    ensures
        r.0@ == match_trades(old(opposite)@, *order, order.quantity),
        final(opposite)@ == book_after_match(old(opposite)@, *order, order.quantity),
        r.1 == remaining_after(old(opposite)@, *order, order.quantity),
{
    let ghost orig = opposite@;
    let mut trades: Vec<Trade> = Vec::new();
    let mut remaining: u64 = order.quantity;
    let mut i: usize = 0;
    // `partial` is how much was taken from `opposite[i]` when the scan ended
    // on a resting order bigger than the remainder; 0 when none was split.
    let mut partial: u64 = 0;
    proof {
        assert(orig.skip(0) =~= orig);
    }
    loop
        invariant_except_break
            partial == 0,
            i <= orig.len(),
            opposite@ == orig,
            remaining <= order.quantity,
            match_trades(orig, *order, order.quantity) == trades@ + match_trades(
                orig.skip(i as int),
                *order,
                remaining,
            ),
            book_after_match(orig, *order, order.quantity) == book_after_match(
                orig.skip(i as int),
                *order,
                remaining,
            ),
            remaining_after(orig, *order, order.quantity) == remaining_after(
                orig.skip(i as int),
                *order,
                remaining,
            ),
        ensures
            i <= orig.len(),
            opposite@ == orig,
            trades@ == match_trades(orig, *order, order.quantity),
            remaining == remaining_after(orig, *order, order.quantity),
            partial == 0 ==> book_after_match(orig, *order, order.quantity) == orig.skip(i as int),
            partial > 0 ==> i < orig.len() && partial < orig[i as int].quantity
                && book_after_match(orig, *order, order.quantity) == seq![
                reduce_qty(orig[i as int], partial),
            ] + orig.skip(i as int + 1),
        decreases orig.len() - i,
    {
        if i >= opposite.len() {
            proof {
                assert(orig.skip(i as int) =~= Seq::<Order>::empty());
                assert(trades@ + Seq::<Trade>::empty() =~= trades@);
            }
            break;
        }
        let resting = opposite[i];
        proof {
            assert(orig.skip(i as int)[0] == orig[i as int]);
        }
        let ok = match order.side {
            OrderSide::Buy => resting.price <= order.price,
            OrderSide::Sell => resting.price >= order.price,
        };
        if !ok || remaining == 0 {
            proof {
                assert(match_trades(orig.skip(i as int), *order, remaining) =~= Seq::<
                    Trade,
                >::empty());
                assert(trades@ + Seq::<Trade>::empty() =~= trades@);
            }
            break;
        }
        if resting.quantity > remaining {
            trades.push(Trade::new(resting.id, order.id, resting.price, remaining));
            partial = remaining;
            remaining = 0;
            proof {
                let rest = orig.skip(i as int);
                assert(rest.drop_first() =~= orig.skip(i as int + 1));
                assert(match_trades(rest, *order, partial) =~= seq![
                    Trade {
                        maker_id: orig[i as int].id,
                        taker_id: order.id,
                        price: orig[i as int].price,
                        quantity: partial,
                    },
                ]);
                assert(trades@ =~= trades@.drop_last() + match_trades(rest, *order, partial));
                assert(trades@.drop_last() + match_trades(rest, *order, partial) =~= trades@);
                assert(book_after_match(rest, *order, partial) =~= seq![
                    reduce_qty(orig[i as int], partial),
                ] + orig.skip(i as int + 1));
            }
            break;
        } else {
            trades.push(Trade::new(resting.id, order.id, resting.price, resting.quantity));
            let ghost pre = trades@.drop_last();
            remaining = remaining - resting.quantity;
            i = i + 1;
            proof {
                let rest = orig.skip(i as int - 1);
                assert(rest.drop_first() =~= orig.skip(i as int));
                let t = Trade {
                    maker_id: orig[i as int - 1].id,
                    taker_id: order.id,
                    price: orig[i as int - 1].price,
                    quantity: orig[i as int - 1].quantity,
                };
                assert(match_trades(rest, *order, (remaining + t.quantity) as u64) == seq![t]
                    + match_trades(orig.skip(i as int), *order, remaining));
                assert(pre + (seq![t] + match_trades(orig.skip(i as int), *order, remaining))
                    =~= trades@ + match_trades(orig.skip(i as int), *order, remaining));
            }
        }
    }
    let ghost target = book_after_match(orig, *order, order.quantity);
    let mut survivors: Vec<Order> = Vec::new();
    let mut j: usize = i;
    if partial > 0 {
        let n: usize = opposite.len();
        assert(i < n);
        let h = opposite[i];
        survivors.push(Order { id: h.id, side: h.side, price: h.price, quantity: h.quantity
            - partial, timestamp: h.timestamp });
        j = i + 1;
        proof {
            assert(survivors@ =~= seq![reduce_qty(orig[i as int], partial)]);
            assert(survivors@ + orig.skip(j as int) =~= target);
        }
    } else {
        proof {
            assert(survivors@ + orig.skip(j as int) =~= target);
        }
    }
    while j < opposite.len()
        invariant
            i <= j <= orig.len(),
            opposite@ == orig,
            survivors@ + orig.skip(j as int) == target,
        decreases orig.len() - j,
    {
        let x = opposite[j];
        survivors.push(x);
        j = j + 1;
        proof {
            assert(orig.skip(j as int - 1) =~= seq![orig[j as int - 1]] + orig.skip(j as int));
            assert(survivors@ + orig.skip(j as int) =~= target);
        }
    }
    proof {
        assert(orig.skip(j as int) =~= Seq::<Order>::empty());
        assert(survivors@ =~= target);
    }
    *opposite = survivors;
    (trades, remaining)
}

proof fn lemma_insert_by_priority_at(s: Seq<Order>, o: Order, side: OrderSide, idx: int)
    requires
        0 <= idx <= s.len(),
        forall|k: int| 0 <= k < idx ==> !higher_priority(side, o, s[k]),
        idx < s.len() ==> higher_priority(side, o, s[idx]),
    ensures
        insert_by_priority(s, o, side) == s.insert(idx, o),
    decreases idx,
{
    if idx == 0 {
        if s.len() == 0 {
            assert(insert_by_priority(s, o, side) =~= s.insert(0, o));
        } else {
            assert(seq![o] + s =~= s.insert(0, o));
        }
    } else {
        let rest = s.drop_first();
        assert forall|k: int| 0 <= k < idx - 1 implies !higher_priority(side, o, rest[k]) by {
            assert(rest[k] == s[k + 1]);
        }
        if idx - 1 < rest.len() {
            assert(rest[idx - 1] == s[idx]);
        }
        lemma_insert_by_priority_at(rest, o, side, idx - 1);
        assert(seq![s[0]] + rest.insert(idx - 1, o) =~= s.insert(idx, o));
    }
}

/// Inserts `order` into its own side at its priority position: after every
/// resting order it does not strictly beat, before the first one it does,
/// which keeps a newer order behind older orders at its price.
pub fn add_order(orders: &mut Vec<Order>, order: Order)
    ensures
        final(orders)@ == insert_by_priority(old(orders)@, order, order.side),
{
    let ghost orig = orders@;
    let mut idx: usize = 0;
    loop
        invariant_except_break
            idx <= orig.len(),
            orders@ == orig,
            forall|k: int| 0 <= k < idx ==> !higher_priority(order.side, order, orig[k]),
        ensures
            idx <= orig.len(),
            orders@ == orig,
            forall|k: int| 0 <= k < idx ==> !higher_priority(order.side, order, orig[k]),
            idx < orig.len() ==> higher_priority(order.side, order, orig[idx as int]),
        decreases orig.len() - idx,
    {
        if idx >= orders.len() {
            break;
        }
        let resting = orders[idx];
        let beats = match order.side {
            OrderSide::Buy => order.price > resting.price || (order.price == resting.price
                && order.timestamp < resting.timestamp),
            OrderSide::Sell => order.price < resting.price || (order.price == resting.price
                && order.timestamp < resting.timestamp),
        };
        if beats {
            break;
        }
        idx = idx + 1;
    }
    proof {
        lemma_insert_by_priority_at(orig, order, order.side, idx as int);
    }
    orders.insert(idx, order);
}

/// The best-level snapshot of one side: `None` when the side is empty,
/// otherwise the front order's price and the total quantity resting at that
/// price. The front order carries the best price whenever the side is
/// priority-sorted. The bound keeps the summation within `u64`.
pub fn best_level(orders: &Vec<Order>) -> (r: Option<BestOrder>)
    requires
        orders@.len() > 0 ==> level_qty(orders@, orders@[0].price) <= u64::MAX,
    ensures
        r == best_of(orders@),
{
    if orders.len() == 0 {
        return None;
    }
    let best_price: u64 = orders[0].price;
    let mut total: u64 = 0;
    let mut k: usize = 0;
    proof {
        assert(orders@.skip(0) =~= orders@);
    }
    while k < orders.len()
        invariant
            k <= orders@.len(),
            orders@.len() > 0,
            best_price == orders@[0].price,
            level_qty(orders@, best_price) == total + level_qty(orders@.skip(k as int), best_price),
            level_qty(orders@, best_price) <= u64::MAX,
        decreases orders@.len() - k,
    {
        let o = orders[k];
        proof {
            assert(orders@.skip(k as int)[0] == orders@[k as int]);
            assert(orders@.skip(k as int).drop_first() =~= orders@.skip(k as int + 1));
            lemma_level_qty_nonneg(orders@.skip(k as int + 1), best_price);
        }
        if o.price == best_price {
            total = total + o.quantity;
        }
        k = k + 1;
    }
    proof {
        assert(orders@.skip(k as int) =~= Seq::<Order>::empty());
    }
    Some(BestOrder { price: best_price, total_quantity: total })
}

pub proof fn lemma_level_qty_nonneg(s: Seq<Order>, price: u64)
    ensures
        level_qty(s, price) >= 0,
    decreases s.len(),
{
    if s.len() > 0 {
        lemma_level_qty_nonneg(s.drop_first(), price);
    }
}

/// A single price level never holds more quantity than its whole side.
pub proof fn lemma_level_qty_le_sum(s: Seq<Order>, price: u64)
    ensures
        level_qty(s, price) <= sum_qty(s),
    decreases s.len(),
{
    if s.len() > 0 {
        lemma_level_qty_le_sum(s.drop_first(), price);
    }
}

pub proof fn lemma_sum_traded_nonneg(trades: Seq<Trade>)
    ensures
        sum_traded(trades) >= 0,
    decreases trades.len(),
{
    if trades.len() > 0 {
        lemma_sum_traded_nonneg(trades.drop_first());
    }
}

/// Conservation law: for any submission, the quantity its trades fill plus
/// the quantity left over to rest equals the submitted quantity.
pub proof fn lemma_conservation(opp: Seq<Order>, taker: Order, submitted: u64)
    ensures
        sum_traded(match_trades(opp, taker, submitted)) + remaining_after(opp, taker, submitted)
            == submitted,
    decreases opp.len(),
{
    if submitted == 0 || opp.len() == 0 || !price_ok(taker.side, opp[0].price, taker.price) {
        assert(sum_traded(Seq::<Trade>::empty()) == 0);
    } else if opp[0].quantity > submitted {
        let t = Trade {
            maker_id: opp[0].id,
            taker_id: taker.id,
            price: opp[0].price,
            quantity: submitted,
        };
        assert(seq![t].drop_first() =~= Seq::<Trade>::empty());
        assert(seq![t][0] == t);
        assert(sum_traded(Seq::<Trade>::empty()) == 0);
        assert(sum_traded(seq![t]) == submitted);
    } else {
        let t = Trade {
            maker_id: opp[0].id,
            taker_id: taker.id,
            price: opp[0].price,
            quantity: opp[0].quantity,
        };
        let rest = match_trades(opp.drop_first(), taker, (submitted - opp[0].quantity) as u64);
        lemma_conservation(opp.drop_first(), taker, (submitted - opp[0].quantity) as u64);
        assert((seq![t] + rest)[0] == t);
        assert((seq![t] + rest).drop_first() =~= rest);
    }
}

/// After matching, the opposite side is still priority-sorted and still holds
/// only positive quantities, and it has given up exactly the traded quantity.
pub proof fn lemma_book_after_match_inv(
    opp: Seq<Order>,
    taker: Order,
    remaining: u64,
    opp_side: OrderSide,
)
    requires
        sorted_by_priority(opp_side, opp),
        all_positive(opp),
    ensures
        sorted_by_priority(opp_side, book_after_match(opp, taker, remaining)),
        all_positive(book_after_match(opp, taker, remaining)),
        sum_qty(book_after_match(opp, taker, remaining)) + sum_traded(
            match_trades(opp, taker, remaining),
        ) == sum_qty(opp),
    decreases opp.len(),
{
    if remaining == 0 || opp.len() == 0 || !price_ok(taker.side, opp[0].price, taker.price) {
        assert(sum_traded(Seq::<Trade>::empty()) == 0);
    } else if opp[0].quantity > remaining {
        let b = book_after_match(opp, taker, remaining);
        let t = Trade {
            maker_id: opp[0].id,
            taker_id: taker.id,
            price: opp[0].price,
            quantity: remaining,
        };
        assert forall|i: int, j: int| 0 <= i < j < b.len() implies priority_le(
            opp_side,
            b[i],
            b[j],
        ) by {
            assert(b[j] == opp[j]);
            if i == 0 {
                assert(priority_le(opp_side, opp[0], opp[j]));
            } else {
                assert(b[i] == opp[i]);
            }
        }
        assert(all_positive(b)) by {
            assert forall|i: int| 0 <= i < b.len() implies b[i].quantity > 0 by {
                if i > 0 {
                    assert(b[i] == opp[i]);
                }
            }
        }
        assert(b.drop_first() =~= opp.drop_first());
        assert(seq![t].drop_first() =~= Seq::<Trade>::empty());
        assert(seq![t][0] == t);
        assert(sum_traded(Seq::<Trade>::empty()) == 0);
        assert(sum_traded(seq![t]) == remaining);
    } else {
        let rest = opp.drop_first();
        assert forall|i: int, j: int| 0 <= i < j < rest.len() implies priority_le(
            opp_side,
            rest[i],
            rest[j],
        ) by {
            assert(rest[i] == opp[i + 1] && rest[j] == opp[j + 1]);
        }
        assert(all_positive(rest)) by {
            assert forall|i: int| 0 <= i < rest.len() implies rest[i].quantity > 0 by {
                assert(rest[i] == opp[i + 1]);
            }
        }
        lemma_book_after_match_inv(rest, taker, (remaining - opp[0].quantity) as u64, opp_side);
        let t = Trade {
            maker_id: opp[0].id,
            taker_id: taker.id,
            price: opp[0].price,
            quantity: opp[0].quantity,
        };
        let mt_rest = match_trades(rest, taker, (remaining - opp[0].quantity) as u64);
        assert((seq![t] + mt_rest)[0] == t);
        assert((seq![t] + mt_rest).drop_first() =~= mt_rest);
    }
}

/// Inserting at priority position keeps the side sorted, keeps quantities
/// positive, grows the side's total by exactly the inserted quantity, and
/// adds no order other than the inserted one.
pub proof fn lemma_insert_by_priority_inv(s: Seq<Order>, o: Order, side: OrderSide)
    requires
        sorted_by_priority(side, s),
    ensures
        sorted_by_priority(side, insert_by_priority(s, o, side)),
        all_positive(s) && o.quantity > 0 ==> all_positive(insert_by_priority(s, o, side)),
        sum_qty(insert_by_priority(s, o, side)) == sum_qty(s) + o.quantity,
        insert_by_priority(s, o, side).len() == s.len() + 1,
        forall|k: int|
            0 <= k < insert_by_priority(s, o, side).len() ==> #[trigger] insert_by_priority(
                s,
                o,
                side,
            )[k] == o || s.contains(insert_by_priority(s, o, side)[k]),
    decreases s.len(),
{
    let r = insert_by_priority(s, o, side);
    if s.len() == 0 {
        assert(r =~= seq![o]);
        assert(r.drop_first() =~= Seq::<Order>::empty());
        assert(r[0] == o);
        assert(sum_qty(Seq::<Order>::empty()) == 0);
        assert(sum_qty(r) == sum_qty(s) + o.quantity);
    } else if higher_priority(side, o, s[0]) {
        assert(r =~= seq![o] + s);
        assert(r[0] == o);
        assert forall|i: int, j: int| 0 <= i < j < r.len() implies priority_le(
            side,
            r[i],
            r[j],
        ) by {
            assert(r[j] == s[j - 1]);
            if i == 0 {
                if j > 1 {
                    assert(priority_le(side, s[0], s[j - 1]));
                }
            } else {
                assert(r[i] == s[i - 1]);
            }
        }
        assert(r.drop_first() =~= s);
        assert forall|k: int| 0 <= k < r.len() implies #[trigger] r[k] == o || s.contains(
            r[k],
        ) by {
            if k > 0 {
                assert(s[k - 1] == r[k]);
            }
        }
    } else {
        let rest = s.drop_first();
        assert forall|i: int, j: int| 0 <= i < j < rest.len() implies priority_le(
            side,
            rest[i],
            rest[j],
        ) by {
            assert(rest[i] == s[i + 1] && rest[j] == s[j + 1]);
        }
        lemma_insert_by_priority_inv(rest, o, side);
        let r2 = insert_by_priority(rest, o, side);
        assert(r =~= seq![s[0]] + r2);
        assert(r.drop_first() =~= r2);
        assert(r[0] == s[0]);
        assert(sum_qty(r) == s[0].quantity + sum_qty(r2));
        assert(sum_qty(s) == s[0].quantity + sum_qty(rest));
        assert forall|k: int| 0 <= k < r.len() implies #[trigger] r[k] == o || s.contains(
            r[k],
        ) by {
            if k > 0 {
                assert(r[k] == r2[k - 1]);
                if r2[k - 1] != o {
                    assert(rest.contains(r2[k - 1]));
                    let m = choose|m: int| 0 <= m < rest.len() && rest[m] == r2[k - 1];
                    assert(s[m + 1] == r2[k - 1]);
                }
            }
        }
        assert forall|i: int, j: int| 0 <= i < j < r.len() implies priority_le(
            side,
            r[i],
            r[j],
        ) by {
            if i == 0 {
                let x = r[j];
                assert(x == r2[j - 1]);
                if x == o {
                    assert(priority_le(side, s[0], o));
                } else {
                    assert(rest.contains(x));
                    let m = choose|m: int| 0 <= m < rest.len() && rest[m] == x;
                    assert(s[m + 1] == x);
                    assert(priority_le(side, s[0], s[m + 1]));
                }
            } else {
                assert(r[i] == r2[i - 1] && r[j] == r2[j - 1]);
            }
        }
        assert(all_positive(s) && o.quantity > 0 ==> all_positive(r)) by {
            if all_positive(s) && o.quantity > 0 {
                assert forall|k: int| 0 <= k < r.len() implies r[k].quantity > 0 by {
                    if k > 0 {
                        assert(r[k] == r2[k - 1]);
                    }
                }
            }
        }
    }
}

/// The trades of one submission consume the opposite side strictly from the
/// front: the k-th trade records the k-th resting order's id and price. On a
/// priority-sorted side this is what returns trades in the order they
/// occurred, best price first and, within a price, oldest first.
pub proof fn lemma_trades_front_first(opp: Seq<Order>, taker: Order, remaining: u64)
    ensures
        match_trades(opp, taker, remaining).len() <= opp.len(),
        forall|k: int|
            0 <= k < match_trades(opp, taker, remaining).len() ==> (#[trigger] match_trades(
                opp,
                taker,
                remaining,
            )[k]).maker_id == opp[k].id && match_trades(opp, taker, remaining)[k].price
                == opp[k].price,
    decreases opp.len(),
{
    if remaining == 0 || opp.len() == 0 || !price_ok(taker.side, opp[0].price, taker.price) {
    } else if opp[0].quantity > remaining {
        let t = Trade {
            maker_id: opp[0].id,
            taker_id: taker.id,
            price: opp[0].price,
            quantity: remaining,
        };
        assert(seq![t][0] == t);
    } else {
        let t = Trade {
            maker_id: opp[0].id,
            taker_id: taker.id,
            price: opp[0].price,
            quantity: opp[0].quantity,
        };
        let rest = opp.drop_first();
        lemma_trades_front_first(rest, taker, (remaining - opp[0].quantity) as u64);
        let tr = match_trades(opp, taker, remaining);
        let tr_rest = match_trades(rest, taker, (remaining - opp[0].quantity) as u64);
        assert forall|k: int| 0 <= k < tr.len() implies (#[trigger] tr[k]).maker_id == opp[k].id
            && tr[k].price == opp[k].price by {
            if k == 0 {
                assert(tr[0] == t);
            } else {
                assert(tr[k] == tr_rest[k - 1]);
                assert(rest[k - 1] == opp[k]);
            }
        }
    }
}

/// Where no two resting orders of a side share both price and timestamp,
/// priority sortedness is strict: every resting order beats each one after
/// it.
pub proof fn lemma_sorted_strict(side: OrderSide, s: Seq<Order>)
    requires
        sorted_by_priority(side, s),
        forall|i: int, j: int|
            0 <= i < j < s.len() ==> !(s[i].price == s[j].price && s[i].timestamp
                == s[j].timestamp),
    ensures
        forall|i: int, j: int| 0 <= i < j < s.len() ==> higher_priority(side, s[i], s[j]),
{
    assert forall|i: int, j: int| 0 <= i < j < s.len() implies higher_priority(
        side,
        s[i],
        s[j],
    ) by {
        assert(priority_le(side, s[i], s[j]));
        assert(!(s[i].price == s[j].price && s[i].timestamp == s[j].timestamp));
    }
}

} // verus!
