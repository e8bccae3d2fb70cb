//! Price-time matching on one side of a book.
//!
//! The resting orders of a side are kept in ascending priority: the last order
//! is the next to match. Priority is price first (for asks the lowest, for
//! bids the highest), then arrival: at one price the earlier order stands
//! closer to the end.

use vstd::prelude::*;
use crate::domain::{
    DepthLevel, Order, OrderView, Side, Trade, TradeView, order_views, trade_views,
};

verus! {

/// Whether an incoming order on `taker_side` with price bound `limit` may trade
/// against an order resting at `price`. Without a bound every price will do.
pub open spec fn crosses(taker_side: Side, limit: Option<u64>, price: u64) -> bool {
    match limit {
        None => true,
        Some(bound) => match taker_side {
            Side::Bid => price <= bound,
            Side::Ask => price >= bound,
        },
    }
}

/// Whether price `a` is more aggressive than price `b` for orders resting on `side`.
pub open spec fn better_price(side: Side, a: u64, b: u64) -> bool {
    match side {
        Side::Bid => a > b,
        Side::Ask => a < b,
    }
}

/// Whether `a` matches before `b` when both rest on `side`: better price, or
/// the same price and earlier arrival.
pub open spec fn outranks(side: Side, a: OrderView, b: OrderView) -> bool {
    better_price(side, a.price(), b.price()) || (a.price() == b.price() && a.sequence
        < b.sequence)
}

/// What holds of every order resting on `side`.
pub open spec fn rests_on(side: Side, o: OrderView) -> bool {
    &&& o.side == side
    &&& o.kind is Limit
    &&& o.price() > 0
    &&& 0 < o.remaining_qty <= o.original_qty
}

/// A well-formed side: resting orders only, in strictly ascending priority.
pub open spec fn side_ok(side: Side, orders: Seq<OrderView>) -> bool {
    &&& forall|i: int| 0 <= i < orders.len() ==> rests_on(side, #[trigger] orders[i])
    &&& forall|i: int, j: int|
        0 <= i < j < orders.len() ==> outranks(side, #[trigger] orders[j], #[trigger] orders[i])
}

/// One match: the resting order as it stood, and the quantity taken from it.
pub ghost struct Fill {
    pub maker: OrderView,
    pub qty: u64,
}

/// What matching an incoming order against a side comes to.
pub ghost struct MatchOutcome {
    /// The side afterwards.
    pub rest: Seq<OrderView>,
    /// The matches, in the order they were made.
    pub fills: Seq<Fill>,
    /// The quantity of the incoming order left unmatched.
    pub remaining: u64,
}

/// Matching `qty` units of an incoming order against `resting`, the opposite
/// side. The best resting order is taken first and as far as the quantity
/// goes; the next one only when it is used up. Matching stops when the
/// quantity is spent, the side is empty, or its best price no longer crosses.
pub open spec fn match_spec(
    resting: Seq<OrderView>,
    taker_side: Side,
    limit: Option<u64>,
    qty: u64,
) -> MatchOutcome
    decreases resting.len(),
{
    if qty == 0 || resting.len() == 0 || !crosses(taker_side, limit, resting.last().price()) {
        MatchOutcome { rest: resting, fills: Seq::empty(), remaining: qty }
    } else {
        let maker = resting.last();
        if maker.remaining_qty <= qty {
            let later = match_spec(
                resting.drop_last(),
                taker_side,
                limit,
                (qty - maker.remaining_qty) as u64,
            );
            MatchOutcome {
                rest: later.rest,
                fills: seq![Fill { maker, qty: maker.remaining_qty }] + later.fills,
                remaining: later.remaining,
            }
        } else {
            MatchOutcome {
                rest: resting.drop_last().push(maker.reduced_by(qty as int)),
                fills: seq![Fill { maker, qty }],
                remaining: 0,
            }
        }
    }
}

/// The trade that a fill amounts to: the incoming order's owner on its side,
/// the resting order's owner on the other, at the resting order's price.
pub open spec fn trade_of(
    fill: Fill,
    taker: Seq<char>,
    taker_side: Side,
    market_id: u64,
    sequence: int,
) -> TradeView {
    match taker_side {
        Side::Bid => TradeView {
            buyer: taker,
            seller: fill.maker.owner,
            qty: fill.qty,
            price: fill.maker.price(),
            market_id,
            sequence: sequence as u64,
        },
        Side::Ask => TradeView {
            buyer: fill.maker.owner,
            seller: taker,
            qty: fill.qty,
            price: fill.maker.price(),
            market_id,
            sequence: sequence as u64,
        },
    }
}

/// The trades of a run of fills, numbered from `first_sequence` on.
pub open spec fn trades_of(
    fills: Seq<Fill>,
    taker: Seq<char>,
    taker_side: Side,
    market_id: u64,
    first_sequence: u64,
) -> Seq<TradeView> {
    Seq::new(
        fills.len(),
        |k: int| trade_of(fills[k], taker, taker_side, market_id, first_sequence + k),
    )
}

/// The total quantity of a run of fills.
pub open spec fn filled_qty(fills: Seq<Fill>) -> nat
    decreases fills.len(),
{
    if fills.len() == 0 {
        0
    } else {
        fills[0].qty as nat + filled_qty(fills.drop_first())
    }
}

/// The total quantity resting in a run of orders.
pub open spec fn resting_qty(orders: Seq<OrderView>) -> nat
    decreases orders.len(),
{
    if orders.len() == 0 {
        0
    } else {
        resting_qty(orders.drop_last()) + orders.last().remaining_qty as nat
    }
}

/// Every unit of the incoming order is either matched or left over, and every
/// matched unit has left the side.
pub proof fn lemma_match_conserves_quantity(
    resting: Seq<OrderView>,
    taker_side: Side,
    limit: Option<u64>,
    qty: u64,
)
    ensures
        ({
            let out = match_spec(resting, taker_side, limit, qty);
            &&& filled_qty(out.fills) + out.remaining == qty
            &&& resting_qty(out.rest) + filled_qty(out.fills) == resting_qty(resting)
        }),
    decreases resting.len(),
{
    let out = match_spec(resting, taker_side, limit, qty);
    if qty == 0 || resting.len() == 0 || !crosses(taker_side, limit, resting.last().price()) {
    } else {
        let maker = resting.last();
        if maker.remaining_qty <= qty {
            let left = (qty - maker.remaining_qty) as u64;
            lemma_match_conserves_quantity(resting.drop_last(), taker_side, limit, left);
            let later = match_spec(resting.drop_last(), taker_side, limit, left);
            assert(out.fills.drop_first() =~= later.fills);
        } else {
            assert(out.fills.drop_first() =~= Seq::<Fill>::empty());
            assert(filled_qty(out.fills.drop_first()) == 0);
            assert(out.rest.drop_last() =~= resting.drop_last());
        }
    }
}

/// Price-time priority. The fills walk the side from its best order down,
/// without a gap: fill number `k` is made with the order `k` places from the
/// end, at that order's price, and every fill but the last uses its order up.
/// What is left of the side is everything below the orders that were used up,
/// with the last one reduced if it was only partly filled.
pub proof fn lemma_match_follows_priority(
    resting: Seq<OrderView>,
    taker_side: Side,
    limit: Option<u64>,
    qty: u64,
)
    requires
        forall|i: int| 0 <= i < resting.len() ==> (#[trigger] resting[i]).remaining_qty > 0,
    ensures
        ({
            let out = match_spec(resting, taker_side, limit, qty);
            let n = out.fills.len() as int;
            let len = resting.len() as int;
            &&& n <= len
            &&& forall|k: int|
                0 <= k < n ==> {
                    &&& (#[trigger] out.fills[k]).maker == resting[len - 1 - k]
                    &&& 0 < out.fills[k].qty <= resting[len - 1 - k].remaining_qty
                    &&& crosses(taker_side, limit, resting[len - 1 - k].price())
                }
            &&& forall|k: int|
                0 <= k < n - 1 ==> (#[trigger] out.fills[k]).qty == resting[len - 1
                    - k].remaining_qty
            &&& out.rest == if n > 0 && out.fills[n - 1].qty < resting[len - n].remaining_qty {
                resting.take(len - n).push(
                    resting[len - n].reduced_by(out.fills[n - 1].qty as int),
                )
            } else {
                resting.take(len - n)
            }
        }),
    decreases resting.len(),
{
    let out = match_spec(resting, taker_side, limit, qty);
    let len = resting.len() as int;
    if qty == 0 || resting.len() == 0 || !crosses(taker_side, limit, resting.last().price()) {
        assert(resting.take(len) =~= resting);
    } else {
        let maker = resting.last();
        if maker.remaining_qty <= qty {
            let left = (qty - maker.remaining_qty) as u64;
            let below = resting.drop_last();
            lemma_match_follows_priority(below, taker_side, limit, left);
            let later = match_spec(below, taker_side, limit, left);
            let n = out.fills.len() as int;
            assert(n == later.fills.len() + 1);
            assert forall|k: int| 0 <= k < n implies {
                &&& (#[trigger] out.fills[k]).maker == resting[len - 1 - k]
                &&& 0 < out.fills[k].qty <= resting[len - 1 - k].remaining_qty
                &&& crosses(taker_side, limit, resting[len - 1 - k].price())
            } by {
                if k > 0 {
                    assert(out.fills[k] == later.fills[k - 1]);
                    assert(below[len - 1 - k] == resting[len - 1 - k]);
                }
            }
            assert forall|k: int| 0 <= k < n - 1 implies (#[trigger] out.fills[k]).qty
                == resting[len - 1 - k].remaining_qty by {
                if k > 0 {
                    assert(out.fills[k] == later.fills[k - 1]);
                    assert(below[len - 1 - k] == resting[len - 1 - k]);
                }
            }
            assert(below.take(len - n) =~= resting.take(len - n));
            if n > 1 {
                assert(out.fills[n - 1] == later.fills[n - 2]);
                assert(below[len - n] == resting[len - n]);
            }
        } else {
            assert(resting.drop_last() =~= resting.take(len - 1));
        }
    }
}

/// Matching is price-time fair: no order gives up any quantity while an order
/// that outranks it (a better price, or the same price and an earlier
/// arrival) has anything left. If the order at place `i` was filled at all,
/// every order above it is gone from the side.
pub proof fn lemma_earlier_order_fills_first(
    side: Side,
    resting: Seq<OrderView>,
    limit: Option<u64>,
    qty: u64,
    i: int,
    j: int,
)
    requires
        side_ok(side, resting),
        0 <= i < j < resting.len(),
    ensures
        outranks(side, resting[j], resting[i]),
        ({
            let out = match_spec(resting, side.flipped(), limit, qty);
            let untouched = i < out.rest.len() && out.rest[i] == resting[i];
            !untouched ==> j >= out.rest.len()
        }),
{
    lemma_match_follows_priority(resting, side.flipped(), limit, qty);
}

/// Matching leaves a well-formed side behind.
pub proof fn lemma_match_keeps_side(
    side: Side,
    resting: Seq<OrderView>,
    limit: Option<u64>,
    qty: u64,
)
    requires
        side_ok(side, resting),
    ensures
        side_ok(side, match_spec(resting, side.flipped(), limit, qty).rest),
    decreases resting.len(),
{
    let taker_side = side.flipped();
    if qty == 0 || resting.len() == 0 || !crosses(taker_side, limit, resting.last().price()) {
    } else {
        let maker = resting.last();
        let below = resting.drop_last();
        assert(side_ok(side, below)) by {
            assert forall|i: int| 0 <= i < below.len() implies rests_on(side, #[trigger] below[i]) by {
                assert(below[i] == resting[i]);
            }
            assert forall|i: int, j: int| 0 <= i < j < below.len() implies outranks(
                side,
                #[trigger] below[j],
                #[trigger] below[i],
            ) by {
                assert(below[i] == resting[i]);
                assert(below[j] == resting[j]);
            }
        }
        if maker.remaining_qty <= qty {
            lemma_match_keeps_side(side, below, limit, (qty - maker.remaining_qty) as u64);
        } else {
            let cut = maker.reduced_by(qty as int);
            let rest = below.push(cut);
            assert forall|i: int| 0 <= i < rest.len() implies rests_on(side, #[trigger] rest[i]) by {
                if i < below.len() {
                    assert(rest[i] == resting[i]);
                }
            }
            assert forall|i: int, j: int| 0 <= i < j < rest.len() implies outranks(
                side,
                #[trigger] rest[j],
                #[trigger] rest[i],
            ) by {
                assert(rest[i] == resting[i]);
                if j < below.len() {
                    assert(rest[j] == resting[j]);
                } else {
                    assert(outranks(side, resting[j], resting[i]));
                }
            }
        }
    }
}

/// Whether `after` is the order `before`, possibly with less left to match.
pub open spec fn same_order(after: OrderView, before: OrderView) -> bool {
    &&& after.order_id == before.order_id
    &&& after.owner == before.owner
    &&& after.side == before.side
    &&& after.kind == before.kind
    &&& after.original_qty == before.original_qty
    &&& after.sequence == before.sequence
    &&& after.remaining_qty <= before.remaining_qty
}

/// Matching adds no order to the side and moves none: what is left are the
/// lowest-ranked orders, each in its place.
pub proof fn lemma_match_leaves_a_prefix(
    resting: Seq<OrderView>,
    taker_side: Side,
    limit: Option<u64>,
    qty: u64,
)
    ensures
        ({
            let out = match_spec(resting, taker_side, limit, qty);
            &&& out.rest.len() <= resting.len()
            &&& forall|i: int|
                0 <= i < out.rest.len() ==> same_order(#[trigger] out.rest[i], resting[i])
        }),
    decreases resting.len(),
{
    if qty == 0 || resting.len() == 0 || !crosses(taker_side, limit, resting.last().price()) {
    } else {
        let maker = resting.last();
        if maker.remaining_qty <= qty {
            let left = (qty - maker.remaining_qty) as u64;
            lemma_match_leaves_a_prefix(resting.drop_last(), taker_side, limit, left);
        }
    }
}

/// When part of the incoming order is left over, nothing on the side crosses
/// its bound any more.
pub proof fn lemma_match_leaves_no_cross(
    side: Side,
    resting: Seq<OrderView>,
    limit: Option<u64>,
    qty: u64,
)
    requires
        side_ok(side, resting),
    ensures
        ({
            let out = match_spec(resting, side.flipped(), limit, qty);
            out.remaining > 0 ==> forall|i: int|
                0 <= i < out.rest.len() ==> !crosses(
                    side.flipped(),
                    limit,
                    (#[trigger] out.rest[i]).price(),
                )
        }),
    decreases resting.len(),
{
    let taker_side = side.flipped();
    let out = match_spec(resting, taker_side, limit, qty);
    if qty == 0 {
    } else if resting.len() == 0 {
    } else if !crosses(taker_side, limit, resting.last().price()) {
        assert forall|i: int| 0 <= i < out.rest.len() implies !crosses(
            taker_side,
            limit,
            (#[trigger] out.rest[i]).price(),
        ) by {
            if i < resting.len() - 1 {
                assert(outranks(side, resting[resting.len() - 1], resting[i]));
            }
        }
    } else {
        let maker = resting.last();
        let below = resting.drop_last();
        if maker.remaining_qty <= qty {
            assert(side_ok(side, below)) by {
                assert forall|i: int| 0 <= i < below.len() implies rests_on(
                    side,
                    #[trigger] below[i],
                ) by {
                    assert(below[i] == resting[i]);
                }
                assert forall|i: int, j: int| 0 <= i < j < below.len() implies outranks(
                    side,
                    #[trigger] below[j],
                    #[trigger] below[i],
                ) by {
                    assert(below[i] == resting[i]);
                    assert(below[j] == resting[j]);
                }
            }
            lemma_match_leaves_no_cross(side, below, limit, (qty - maker.remaining_qty) as u64);
            assert(out.rest == match_spec(
                below,
                taker_side,
                limit,
                (qty - maker.remaining_qty) as u64,
            ).rest);
        } else {
            assert(out.remaining == 0);
        }
    }
}

/// Where a new order at `price` goes into a side: above every order with a
/// worse price, below every order with the same or a better one. The result
/// counts the orders with a worse price.
pub open spec fn rank_for(side: Side, orders: Seq<OrderView>, price: u64) -> int
    decreases orders.len(),
{
    if orders.len() > 0 && better_price(side, price, orders[0].price()) {
        1 + rank_for(side, orders.drop_first(), price)
    } else {
        0
    }
}

/// The side with a new order put to rest on it.
pub open spec fn rested(side: Side, orders: Seq<OrderView>, o: OrderView) -> Seq<OrderView> {
    orders.insert(rank_for(side, orders, o.price()), o)
}

/// The rank of a price lies within the side, with the worse prices below it
/// and no worse price at it.
pub proof fn lemma_rank_splits_side(side: Side, orders: Seq<OrderView>, price: u64)
    ensures
        ({
            let r = rank_for(side, orders, price);
            &&& 0 <= r <= orders.len()
            &&& forall|i: int| 0 <= i < r ==> better_price(side, price, (#[trigger] orders[i]).price())
            &&& r < orders.len() ==> !better_price(side, price, orders[r].price())
        }),
    decreases orders.len(),
{
    if orders.len() > 0 && better_price(side, price, orders[0].price()) {
        let above = orders.drop_first();
        lemma_rank_splits_side(side, above, price);
        let r = rank_for(side, orders, price);
        assert forall|i: int| 0 <= i < r implies better_price(
            side,
            price,
            (#[trigger] orders[i]).price(),
        ) by {
            if i > 0 {
                assert(orders[i] == above[i - 1]);
            }
        }
        if r < orders.len() {
            assert(orders[r] == above[r - 1]);
        }
    }
}

/// A new order, later than all that rest, keeps the side well-formed when it
/// is put to rest: it queues behind every order at its price.
pub proof fn lemma_rested_keeps_side(side: Side, orders: Seq<OrderView>, o: OrderView)
    requires
        side_ok(side, orders),
        rests_on(side, o),
        forall|i: int| 0 <= i < orders.len() ==> (#[trigger] orders[i]).sequence < o.sequence,
    ensures
        side_ok(side, rested(side, orders, o)),
{
    let r = rank_for(side, orders, o.price());
    lemma_rank_splits_side(side, orders, o.price());
    let after = rested(side, orders, o);
    assert forall|i: int| 0 <= i < after.len() implies rests_on(side, #[trigger] after[i]) by {
        if i < r {
            assert(after[i] == orders[i]);
        } else if i > r {
            assert(after[i] == orders[i - 1]);
        }
    }
    assert forall|i: int, j: int| 0 <= i < j < after.len() implies outranks(
        side,
        #[trigger] after[j],
        #[trigger] after[i],
    ) by {
        if j < r {
            assert(after[i] == orders[i] && after[j] == orders[j]);
        } else if j == r {
            assert(after[i] == orders[i]);
        } else if i == r {
            assert(after[j] == orders[j - 1]);
            if j - 1 > r {
                assert(outranks(side, orders[j - 1], orders[r]));
            }
        } else if i > r {
            assert(after[i] == orders[i - 1] && after[j] == orders[j - 1]);
        } else {
            assert(after[i] == orders[i] && after[j] == orders[j - 1]);
        }
    }
}

/// The depth of a side: one line for each price at which orders rest, the most
/// aggressive price first, each with the total quantity resting at it.
pub open spec fn depth_spec(orders: Seq<OrderView>) -> Seq<DepthLevel>
    decreases orders.len(),
{
    if orders.len() == 0 {
        Seq::empty()
    } else {
        let o = orders[0];
        let above = depth_spec(orders.drop_first());
        if above.len() > 0 && above.last().price == o.price() {
            above.drop_last().push(
                DepthLevel {
                    price: o.price(),
                    quantity: (above.last().quantity + o.remaining_qty) as u128,
                },
            )
        } else {
            above.push(DepthLevel { price: o.price(), quantity: o.remaining_qty as u128 })
        }
    }
}

/// A depth listing has at most one line per order, its last line stands at
/// the price of the lowest-ranked order, and no line adds up to more than the
/// orders could hold.
pub proof fn lemma_depth_bounds(orders: Seq<OrderView>)
    requires
        orders.len() <= u64::MAX,
    ensures
        ({
            let d = depth_spec(orders);
            &&& d.len() <= orders.len()
            &&& (orders.len() > 0 ==> d.len() > 0 && d.last().price == orders[0].price())
            &&& forall|l: int|
                0 <= l < d.len() ==> (#[trigger] d[l]).quantity <= orders.len() * u64::MAX
        }),
    decreases orders.len(),
{
    if orders.len() > 0 {
        let tail = orders.drop_first();
        lemma_depth_bounds(tail);
        let above = depth_spec(tail);
        let d = depth_spec(orders);
        assert(tail.len() * u64::MAX + u64::MAX == orders.len() * u64::MAX <= u128::MAX)
            by (nonlinear_arith)
            requires
                tail.len() + 1 == orders.len(),
                orders.len() <= u64::MAX,
        ;
        assert forall|l: int| 0 <= l < d.len() implies (#[trigger] d[l]).quantity <= orders.len()
            * u64::MAX by {
            if l < d.len() - 1 {
                assert(d[l] == above[l]);
            }
        }
    }
}

/// The lines of a depth listing run from the most aggressive price to the
/// least, each price once.
pub proof fn lemma_depth_is_sorted(side: Side, orders: Seq<OrderView>)
    requires
        side_ok(side, orders),
        orders.len() <= u64::MAX,
    ensures
        ({
            let d = depth_spec(orders);
            forall|l: int, m: int|
                0 <= l < m < d.len() ==> better_price(
                    side,
                    (#[trigger] d[l]).price,
                    (#[trigger] d[m]).price,
                )
        }),
    decreases orders.len(),
{
    if orders.len() > 0 {
        let o = orders[0];
        let tail = orders.drop_first();
        lemma_side_without_lowest(side, orders);
        lemma_depth_is_sorted(side, tail);
        lemma_depth_bounds(tail);
        let above = depth_spec(tail);
        let d = depth_spec(orders);
        if tail.len() > 0 {
            assert(tail[0] == orders[1]);
            assert(outranks(side, orders[1], orders[0]));
        }
        assert forall|l: int, m: int| 0 <= l < m < d.len() implies better_price(
            side,
            (#[trigger] d[l]).price,
            (#[trigger] d[m]).price,
        ) by {
            assert(d[l] == above[l]);
            if m < above.len() {
                assert(d[m].price == above[m].price);
            } else if l < above.len() - 1 {
                assert(better_price(side, above[l].price, above[above.len() - 1].price));
            }
        }
    }
}

/// The total quantity that rests at `price`.
pub open spec fn quantity_at(orders: Seq<OrderView>, price: u64) -> nat
    decreases orders.len(),
{
    if orders.len() == 0 {
        0
    } else if orders[0].price() == price {
        quantity_at(orders.drop_first(), price) + orders[0].remaining_qty as nat
    } else {
        quantity_at(orders.drop_first(), price)
    }
}

/// Nothing rests at a price at which no order stands.
pub proof fn lemma_nothing_at_unused_price(orders: Seq<OrderView>, price: u64)
    requires
        forall|i: int| 0 <= i < orders.len() ==> (#[trigger] orders[i]).price() != price,
    ensures
        quantity_at(orders, price) == 0,
    decreases orders.len(),
{
    if orders.len() > 0 {
        let tail = orders.drop_first();
        assert forall|i: int| 0 <= i < tail.len() implies (#[trigger] tail[i]).price() != price by {
            assert(tail[i] == orders[i + 1]);
        }
        lemma_nothing_at_unused_price(tail, price);
    }
}

/// A depth listing adds up: every price at which an order rests has a line,
/// every line stands at such a price, and the quantity of a line is the total
/// of what rests at its price, which is never zero.
pub proof fn lemma_depth_adds_up(side: Side, orders: Seq<OrderView>)
    requires
        side_ok(side, orders),
        orders.len() <= u64::MAX,
    ensures
        ({
            let d = depth_spec(orders);
            &&& forall|l: int|
                0 <= l < d.len() ==> (#[trigger] d[l]).quantity == quantity_at(orders, d[l].price)
                    && d[l].quantity > 0
            &&& forall|i: int|
                0 <= i < orders.len() ==> exists|l: int|
                    0 <= l < d.len() && (#[trigger] d[l]).price == (#[trigger] orders[i]).price()
        }),
    decreases orders.len(),
{
    if orders.len() > 0 {
        let o = orders[0];
        let tail = orders.drop_first();
        lemma_side_without_lowest(side, orders);
        lemma_depth_adds_up(side, tail);
        lemma_depth_bounds(tail);
        lemma_depth_is_sorted(side, tail);
        let above = depth_spec(tail);
        let d = depth_spec(orders);
        let merges = above.len() > 0 && above.last().price == o.price();
        assert(tail.len() * u64::MAX + u64::MAX <= u128::MAX) by (nonlinear_arith)
            requires
                tail.len() < u64::MAX,
        ;
        if tail.len() > 0 {
            assert(tail[0] == orders[1]);
            assert(outranks(side, orders[1], orders[0]));
        }
        assert forall|l: int| 0 <= l < above.len() && !(merges && l == above.len() - 1) implies (
        #[trigger] above[l]).price != o.price() by {
            if l < above.len() - 1 {
                assert(better_price(side, above[l].price, above[above.len() - 1].price));
            }
        }
        if !merges {
            assert forall|i: int| 0 <= i < tail.len() implies (#[trigger] tail[i]).price()
                != o.price() by {
                let l = choose|l: int|
                    0 <= l < above.len() && (#[trigger] above[l]).price == tail[i].price();
                assert(above[l].price != o.price());
            }
            lemma_nothing_at_unused_price(tail, o.price());
        }
        assert forall|l: int| 0 <= l < d.len() implies (#[trigger] d[l]).quantity == quantity_at(
            orders,
            d[l].price,
        ) && d[l].quantity > 0 by {
            if l < d.len() - 1 {
                assert(d[l] == above[l]);
            }
        }
        assert forall|i: int| 0 <= i < orders.len() implies exists|l: int|
            0 <= l < d.len() && (#[trigger] d[l]).price == (#[trigger] orders[i]).price() by {
            if i == 0 {
                assert(d[d.len() - 1].price == orders[0].price());
            } else {
                assert(tail[i - 1] == orders[i]);
                let l = choose|l: int|
                    0 <= l < above.len() && (#[trigger] above[l]).price == tail[i - 1].price();
                assert(d[l].price == above[l].price);
            }
        }
    }
}

/// A well-formed side stays one when its lowest-ranked order is left out.
pub proof fn lemma_side_without_lowest(side: Side, orders: Seq<OrderView>)
    requires
        side_ok(side, orders),
        orders.len() > 0,
    ensures
        side_ok(side, orders.drop_first()),
{
    let tail = orders.drop_first();
    assert forall|i: int| 0 <= i < tail.len() implies rests_on(side, #[trigger] tail[i]) by {
        assert(tail[i] == orders[i + 1]);
    }
    assert forall|i: int, j: int| 0 <= i < j < tail.len() implies outranks(
        side,
        #[trigger] tail[j],
        #[trigger] tail[i],
    ) by {
        assert(tail[i] == orders[i + 1]);
        assert(tail[j] == orders[j + 1]);
    }
}

/// Whether an incoming order with this bound may trade at `price`.
pub fn price_crosses(taker_side: Side, limit: Option<u64>, price: u64) -> (yes: bool)
    ensures
        yes == crosses(taker_side, limit, price),
{
    match limit {
        None => true,
        Some(bound) => match taker_side {
            Side::Bid => price <= bound,
            Side::Ask => price >= bound,
        },
    }
}

fn keeps_matching(
    resting: &Vec<Order>,
    upto: usize,
    taker_side: Side,
    limit: Option<u64>,
    left: u64,
) -> (go: bool)
    requires
        upto <= resting.len(),
    ensures
        go == (left > 0 && upto > 0 && crosses(
            taker_side,
            limit,
            order_views(resting@)[upto - 1].price(),
        )),
{
    if left == 0 || upto == 0 {
        false
    } else {
        price_crosses(taker_side, limit, resting[upto - 1].price())
    }
}

/// The trades that matching `qty` units against `resting` makes, numbered from
/// `first_sequence` on, and the quantity left unmatched. The side itself is
/// not touched. `None` when the trade numbers would run out.
pub fn plan_fills(
    resting: &Vec<Order>,
    taker: &String,
    taker_side: Side,
    limit: Option<u64>,
    qty: u64,
    market_id: u64,
    first_sequence: u64,
) -> (plan: Option<(Vec<Trade>, u64)>)
    ensures
        ({
            let out = match_spec(order_views(resting@), taker_side, limit, qty);
            match plan {
                Some((trades, remaining)) => {
                    &&& first_sequence + out.fills.len() <= u64::MAX
                    &&& trade_views(trades@) == trades_of(
                        out.fills,
                        taker@,
                        taker_side,
                        market_id,
                        first_sequence,
                    )
                    &&& remaining == out.remaining
                },
                None => first_sequence + out.fills.len() > u64::MAX,
            }
        }),
{
    let ghost views = order_views(resting@);
    let ghost total = match_spec(views, taker_side, limit, qty);
    let mut trades: Vec<Trade> = Vec::new();
    let mut left: u64 = qty;
    let mut i: usize = resting.len();
    let mut sequence: u64 = first_sequence;
    proof {
        assert(views.take(i as int) =~= views);
        assert(total.fills.take(0) + total.fills =~= total.fills);
        assert(trade_views(trades@) =~= trades_of(
            total.fills.take(0),
            taker@,
            taker_side,
            market_id,
            first_sequence,
        ));
    }
    let mut go = keeps_matching(resting, i, taker_side, limit, left);
    while go
        invariant
            i <= resting.len(),
            views == order_views(resting@),
            total == match_spec(views, taker_side, limit, qty),
            go == (left > 0 && i > 0 && crosses(taker_side, limit, views[i - 1].price())),
            sequence == first_sequence + trades.len(),
            trades.len() <= total.fills.len(),
            total.fills == total.fills.take(trades.len() as int) + match_spec(
                views.take(i as int),
                taker_side,
                limit,
                left,
            ).fills,
            total.remaining == match_spec(views.take(i as int), taker_side, limit, left).remaining,
            trade_views(trades@) == trades_of(
                total.fills.take(trades.len() as int),
                taker@,
                taker_side,
                market_id,
                first_sequence,
            ),
        decreases i,
    {
        let ghost n = trades.len() as int;
        let ghost here = views.take(i as int);
        let ghost sub = match_spec(here, taker_side, limit, left);
        let maker = &resting[i - 1];
        let fill = if maker.remaining_qty <= left {
            maker.remaining_qty
        } else {
            left
        };
        proof {
            assert(here.last() == maker@);
            assert(here.drop_last() =~= views.take(i - 1));
            assert(sub.fills[0] == Fill { maker: maker@, qty: fill });
            assert(total.fills[n] == sub.fills[0]);
        }
        let next = match sequence.checked_add(1) {
            Some(next) => next,
            None => {
                return None;
            },
        };
        let trade = match taker_side {
            Side::Bid => Trade {
                buyer: taker.clone(),
                seller: maker.owner.clone(),
                qty: fill,
                price: maker.price(),
                market_id,
                sequence,
            },
            Side::Ask => Trade {
                buyer: maker.owner.clone(),
                seller: taker.clone(),
                qty: fill,
                price: maker.price(),
                market_id,
                sequence,
            },
        };
        proof {
            assert(trade@ == trade_of(
                total.fills[n],
                taker@,
                taker_side,
                market_id,
                first_sequence + n,
            ));
        }
        let ghost made = trade_views(trades@);
        trades.push(trade);
        left = left - fill;
        i = i - 1;
        sequence = next;
        proof {
            let later = match_spec(views.take(i as int), taker_side, limit, left);
            assert(total.fills.take(n + 1) =~= total.fills.take(n).push(total.fills[n]));
            assert(sub.fills =~= seq![sub.fills[0]] + later.fills);
            assert(total.fills =~= total.fills.take(n + 1) + later.fills);
            assert(trade_views(trades@) =~= made.push(trade@));
            assert(trade_views(trades@) =~= trades_of(
                total.fills.take(n + 1),
                taker@,
                taker_side,
                market_id,
                first_sequence,
            ));
        }
        go = keeps_matching(resting, i, taker_side, limit, left);
    }
    proof {
        let sub = match_spec(views.take(i as int), taker_side, limit, left);
        assert(sub.fills.len() == 0);
        assert(total.fills.take(trades.len() as int) =~= total.fills);
    }
    Some((trades, left))
}

/// Carries the matching of `qty` units out on the side: orders that are used
/// up leave it, and the one that is partly filled keeps what is left of it.
pub fn apply_fills(resting: &mut Vec<Order>, taker_side: Side, limit: Option<u64>, qty: u64)
    ensures
        order_views(final(resting)@) == match_spec(
            order_views(old(resting)@),
            taker_side,
            limit,
            qty,
        ).rest,
{
    let ghost total = match_spec(order_views(resting@), taker_side, limit, qty);
    let mut left: u64 = qty;
    let mut go = keeps_matching(resting, resting.len(), taker_side, limit, left);
    while go
        invariant
            go == (left > 0 && resting.len() > 0 && crosses(
                taker_side,
                limit,
                order_views(resting@)[resting.len() - 1].price(),
            )),
            total.rest == match_spec(order_views(resting@), taker_side, limit, left).rest,
        decreases resting.len(), left,
    {
        let ghost before = order_views(resting@);
        let last = resting.len() - 1;
        let available = resting[last].remaining_qty;
        if available <= left {
            left = left - available;
            resting.pop();
            proof {
                assert(order_views(resting@) =~= before.drop_last());
            }
        } else {
            resting[last].remaining_qty = available - left;
            proof {
                assert(order_views(resting@) =~= before.drop_last().push(
                    before.last().reduced_by(left as int),
                ));
            }
            left = 0;
        }
        go = keeps_matching(resting, resting.len(), taker_side, limit, left);
    }
}

/// Puts a new order to rest on its side, behind every order at its price.
pub fn rest_order(resting: &mut Vec<Order>, order: Order)
    ensures
        order_views(final(resting)@) == rested(order.side, order_views(old(resting)@), order@),
{
    let ghost views = order_views(resting@);
    let side = order.side;
    let price = order.price();
    let mut i: usize = 0;
    proof {
        assert(views.skip(0) =~= views);
    }
    while i < resting.len() && is_better(side, price, resting[i].price())
        invariant
            i <= resting.len(),
            views == order_views(resting@),
            rank_for(side, views, price) == i + rank_for(side, views.skip(i as int), price),
        decreases resting.len() - i,
    {
        proof {
            assert(views.skip(i as int)[0] == views[i as int]);
            assert(views.skip(i as int).drop_first() =~= views.skip(i + 1));
        }
        i += 1;
    }
    proof {
        if i < resting.len() {
            assert(views.skip(i as int)[0] == views[i as int]);
        }
        assert(rank_for(side, views, price) == i);
    }
    resting.insert(i, order);
    proof {
        assert(order_views(resting@) =~= views.insert(i as int, order@));
    }
}

/// Whether price `a` is more aggressive than price `b` on `side`.
pub fn is_better(side: Side, a: u64, b: u64) -> (yes: bool)
    ensures
        yes == better_price(side, a, b),
{
    match side {
        Side::Bid => a > b,
        Side::Ask => a < b,
    }
}

/// The depth of a side, the most aggressive price first.
pub fn depth_of(resting: &Vec<Order>) -> (levels: Vec<DepthLevel>)
    ensures
        levels@ == depth_spec(order_views(resting@)),
{
    let ghost views = order_views(resting@);
    let mut levels: Vec<DepthLevel> = Vec::new();
    let mut i: usize = resting.len();
    proof {
        assert(views.skip(i as int) =~= Seq::<OrderView>::empty());
    }
    while i > 0
        invariant
            i <= resting.len(),
            views == order_views(resting@),
            levels@ == depth_spec(views.skip(i as int)),
        decreases i,
    {
        let ghost above = views.skip(i as int);
        let o = &resting[i - 1];
        let price = o.price();
        proof {
            let here = views.skip(i - 1);
            assert(here[0] == o@);
            assert(here.drop_first() =~= above);
            lemma_depth_bounds(above);
            assert(above.len() * u64::MAX + u64::MAX <= u128::MAX) by (nonlinear_arith)
                requires
                    above.len() < u64::MAX,
            ;
        }
        let n = levels.len();
        if n > 0 && levels[n - 1].price == price {
            let quantity: u128 = levels[n - 1].quantity + o.remaining_qty as u128;
            levels.pop();
            levels.push(DepthLevel { price, quantity });
        } else {
            levels.push(DepthLevel { price, quantity: o.remaining_qty as u128 });
        }
        i = i - 1;
    }
    proof {
        assert(views.skip(0) =~= views);
    }
    levels
}

} // verus!
