//! The limit order book of one market.
//!
//! A book works one order off at a time, in steps. Each step either asks the
//! ledger for something ([`BookStep::Request`]) or answers the caller
//! ([`BookStep::Done`]). The book itself changes only in the step that follows
//! a successful settlement, so a command either goes through whole or leaves
//! the book as it was.

use vstd::prelude::*;
use crate::domain::{
    Order, OrderKind, OrderView, Side, Status, Trade, TradeView, order_views, trade_views,
};
use crate::ledger::{LedgerCommand, LedgerCommandView, LedgerReply};
use crate::matching::{
    MatchOutcome, apply_fills, crosses, depth_of, depth_spec, lemma_match_conserves_quantity,
    lemma_match_keeps_side, lemma_match_leaves_a_prefix, lemma_match_leaves_no_cross,
    lemma_rank_splits_side, lemma_rested_keeps_side, match_spec, outranks, plan_fills, rank_for,
    rest_order, rested, same_order, side_ok, trades_of,
};
use crate::protocol::{BookStep, OrderbookResponse, ResponseView, StepView, copy_trades};

verus! {

/// How far the order in flight has come.
#[derive(Clone, Copy, Debug, PartialEq, Eq, Structural)]
pub enum Phase {
    /// Waiting for the ledger to put the escrow aside.
    Reserving,
    /// Waiting for the ledger to hand back the escrow of the part of a market
    /// order that finds no counterparty.
    Trimming,
    /// Waiting for the ledger to settle the trades.
    Settling,
    /// Waiting for the ledger to hand back the escrow of an order that could
    /// not be carried out.
    Unwinding,
}

/// The order a book is working off.
#[derive(Debug)]
pub struct InFlight {
    market_id: u64,
    owner: String,
    side: Side,
    kind: OrderKind,
    qty: u64,
    bound: u64,
    phase: Phase,
    trades: Vec<Trade>,
    remaining: u64,
}

/// The mathematical content of an [`InFlight`].
pub ghost struct InFlightView {
    pub market_id: u64,
    pub owner: Seq<char>,
    pub side: Side,
    pub kind: OrderKind,
    pub qty: u64,
    /// The price at which the escrow was computed: the limit of a limit order,
    /// the best opposite price for a market order.
    pub bound: u64,
    pub phase: Phase,
    /// The trades the order makes; known once the escrow stands.
    pub trades: Seq<TradeView>,
    /// The quantity that stays unmatched; known once the escrow stands.
    pub remaining: u64,
}

impl View for InFlight {
    type V = InFlightView;

    closed spec fn view(&self) -> InFlightView {
        InFlightView {
            market_id: self.market_id,
            owner: self.owner@,
            side: self.side,
            kind: self.kind,
            qty: self.qty,
            bound: self.bound,
            phase: self.phase,
            trades: trade_views(self.trades@),
            remaining: self.remaining,
        }
    }
}

impl InFlightView {
    /// The quantity whose escrow stands while the trades are being settled:
    /// all of a limit order, the matched part of a market order.
    pub open spec fn escrowed_qty(self) -> u64 {
        match self.kind {
            OrderKind::Limit { .. } => self.qty,
            OrderKind::Market => (self.qty - self.remaining) as u64,
        }
    }

    /// The same order, one phase on.
    pub open spec fn at(self, phase: Phase) -> InFlightView {
        InFlightView { phase, ..self }
    }
}

/// The book of one market as a mathematical object.
pub ghost struct BookView {
    /// Resting bids in ascending priority: the last is the best bid.
    pub bids: Seq<OrderView>,
    /// Resting asks in ascending priority: the last is the best ask.
    pub asks: Seq<OrderView>,
    pub next_order_id: u64,
    pub next_sequence: u64,
    pub next_trade_sequence: u64,
    pub in_flight: Option<InFlightView>,
}

impl BookView {
    /// The resting orders of one side.
    pub open spec fn side(self, side: Side) -> Seq<OrderView> {
        match side {
            Side::Bid => self.bids,
            Side::Ask => self.asks,
        }
    }

    /// The book with one side replaced.
    pub open spec fn with_side(self, side: Side, orders: Seq<OrderView>) -> BookView {
        match side {
            Side::Bid => BookView { bids: orders, ..self },
            Side::Ask => BookView { asks: orders, ..self },
        }
    }

    /// The book with no order in flight.
    pub open spec fn idled(self) -> BookView {
        BookView { in_flight: None, ..self }
    }

    /// The book with `f` in flight.
    pub open spec fn working_on(self, f: InFlightView) -> BookView {
        BookView { in_flight: Some(f), ..self }
    }

    /// No order is in flight.
    pub open spec fn idle(self) -> bool {
        self.in_flight is None
    }

    /// The best bid is strictly below the best ask, or a side is empty.
    pub open spec fn uncrossed(self) -> bool {
        self.bids.len() > 0 && self.asks.len() > 0 ==> self.bids.last().price()
            < self.asks.last().price()
    }

    /// Every bid is strictly below every ask.
    pub open spec fn apart(self) -> bool {
        forall|i: int, j: int|
            0 <= i < self.bids.len() && 0 <= j < self.asks.len() ==> (#[trigger] self.bids[i]).price()
                < (#[trigger] self.asks[j]).price()
    }

    /// Every resting order got its numbers from this book.
    pub open spec fn numbered(self) -> bool {
        &&& forall|i: int|
            0 <= i < self.bids.len() ==> (#[trigger] self.bids[i]).order_id < self.next_order_id
                && self.bids[i].sequence < self.next_sequence
        &&& forall|i: int|
            0 <= i < self.asks.len() ==> (#[trigger] self.asks[i]).order_id < self.next_order_id
                && self.asks[i].sequence < self.next_sequence
    }

    /// The book has run out of order numbers.
    pub open spec fn exhausted(self) -> bool {
        self.next_order_id == u64::MAX || self.next_sequence == u64::MAX
    }

    /// What matching the order `f` against the book comes to.
    pub open spec fn plan(self, f: InFlightView) -> MatchOutcome {
        match_spec(self.side(f.side.flipped()), f.side, f.kind.limit(), f.qty)
    }

    /// The trades of the order `f`, numbered by this book.
    pub open spec fn planned_trades(self, f: InFlightView) -> Seq<TradeView> {
        trades_of(self.plan(f).fills, f.owner, f.side, f.market_id, self.next_trade_sequence)
    }

    /// What holds of an order while it is in flight.
    pub open spec fn in_flight_ok(self, f: InFlightView) -> bool {
        &&& f.qty > 0
        &&& !self.exhausted()
        &&& f.kind matches OrderKind::Limit { price } ==> price > 0 && f.bound == price
        &&& f.phase is Trimming || f.phase is Settling ==> {
            &&& self.next_trade_sequence + self.plan(f).fills.len() <= u64::MAX
            &&& f.trades == self.planned_trades(f)
            &&& f.remaining == self.plan(f).remaining
        }
        &&& f.phase is Trimming ==> f.kind is Market && f.remaining > 0
    }

    /// The book is well-formed: both sides are in order, the book is not
    /// crossed, and the order in flight, if there is one, is consistent with it.
    pub open spec fn wf(self) -> bool {
        &&& side_ok(Side::Bid, self.bids)
        &&& side_ok(Side::Ask, self.asks)
        &&& self.uncrossed()
        &&& self.numbered()
        &&& self.in_flight matches Some(f) ==> self.in_flight_ok(f)
    }

    /// The order that `f` leaves resting, if any of it is left.
    pub open spec fn resting_order(self, f: InFlightView) -> OrderView {
        OrderView {
            order_id: self.next_order_id,
            owner: f.owner,
            side: f.side,
            kind: f.kind,
            original_qty: f.qty,
            remaining_qty: self.plan(f).remaining,
            sequence: self.next_sequence,
        }
    }

    /// The book after the order `f` has been carried out: the opposite side
    /// has been matched, what is left of a limit order rests on its own side,
    /// and the numbers have moved on. What is left of a market order is
    /// dropped.
    pub open spec fn carried_out(self, f: InFlightView) -> BookView {
        let out = self.plan(f);
        let own = self.side(f.side);
        let matched = self.with_side(f.side.flipped(), out.rest);
        let rested_too = if f.kind is Limit && out.remaining > 0 {
            matched.with_side(f.side, rested(f.side, own, self.resting_order(f)))
        } else {
            matched
        };
        BookView {
            next_order_id: (self.next_order_id + 1) as u64,
            next_sequence: (self.next_sequence + 1) as u64,
            next_trade_sequence: (self.next_trade_sequence + out.fills.len()) as u64,
            in_flight: None,
            ..rested_too
        }
    }

    /// The first step of a limit order: refuse it, or ask for its escrow.
    pub open spec fn begin_limit_spec(
        self,
        market_id: u64,
        owner: Seq<char>,
        side: Side,
        qty: u64,
        price: u64,
    ) -> (BookView, StepView) {
        if qty == 0 || price == 0 {
            (self, StepView::Done(ResponseView::bare(Status::InvalidOrder)))
        } else if !self.idle() || self.exhausted() {
            (self, StepView::Done(ResponseView::bare(Status::InternalError)))
        } else {
            (
                self.working_on(
                    InFlightView {
                        market_id,
                        owner,
                        side,
                        kind: OrderKind::Limit { price },
                        qty,
                        bound: price,
                        phase: Phase::Reserving,
                        trades: Seq::empty(),
                        remaining: qty,
                    },
                ),
                StepView::Request(
                    LedgerCommandView::Reserve { email: owner, side, qty, price: Some(price) },
                ),
            )
        }
    }

    /// The first step of a market order: refuse it, or ask for its escrow at
    /// the best price of the opposite side.
    pub open spec fn begin_market_spec(self, market_id: u64, owner: Seq<char>, side: Side, qty: u64) -> (
        BookView,
        StepView,
    ) {
        if qty == 0 {
            (self, StepView::Done(ResponseView::bare(Status::InvalidOrder)))
        } else if !self.idle() || self.exhausted() {
            (self, StepView::Done(ResponseView::bare(Status::InternalError)))
        } else if self.side(side.flipped()).len() == 0 {
            (self, StepView::Done(ResponseView::bare(Status::NoLiquidity)))
        } else {
            let bound = self.side(side.flipped()).last().price();
            (
                self.working_on(
                    InFlightView {
                        market_id,
                        owner,
                        side,
                        kind: OrderKind::Market,
                        qty,
                        bound,
                        phase: Phase::Reserving,
                        trades: Seq::empty(),
                        remaining: qty,
                    },
                ),
                StepView::Request(
                    LedgerCommandView::Reserve { email: owner, side, qty, price: Some(bound) },
                ),
            )
        }
    }

    /// The request that hands the escrow of `qty` units of `f` back.
    pub open spec fn release_of(f: InFlightView, qty: u64) -> StepView {
        StepView::Request(
            LedgerCommandView::ReleaseReservation {
                email: f.owner,
                side: f.side,
                qty,
                price: Some(f.bound),
            },
        )
    }

    /// The step after the trades of `f` are settled, or when there are none:
    /// the order is carried out and answered.
    pub open spec fn finish(self, f: InFlightView) -> (BookView, StepView) {
        (self.carried_out(f), StepView::Done(ResponseView::filled(f.trades, f.remaining)))
    }

    /// The step after the escrow is as it should be: settle the trades, if
    /// there are any.
    pub open spec fn settle_or_finish(self, f: InFlightView) -> (BookView, StepView) {
        if f.trades.len() == 0 {
            self.finish(f)
        } else {
            (
                self.working_on(f.at(Phase::Settling)),
                StepView::Request(LedgerCommandView::Settle { trades: f.trades }),
            )
        }
    }

    /// The step after the escrow of `f` stands: the order is matched against
    /// the book as it is. What a market order cannot match is handed back
    /// first; then the trades are settled.
    pub open spec fn after_reserve(self, f: InFlightView) -> (BookView, StepView) {
        let out = self.plan(f);
        if self.next_trade_sequence + out.fills.len() > u64::MAX {
            (self.working_on(f.at(Phase::Unwinding)), Self::release_of(f, f.qty))
        } else {
            let planned = InFlightView {
                trades: self.planned_trades(f),
                remaining: out.remaining,
                ..f
            };
            if f.kind is Market && out.remaining > 0 {
                (
                    self.working_on(planned.at(Phase::Trimming)),
                    Self::release_of(f, out.remaining),
                )
            } else {
                self.settle_or_finish(planned)
            }
        }
    }

    /// The next step of the order in flight, given the ledger's reply to the
    /// last request.
    pub open spec fn resume_spec(self, reply: LedgerReply) -> (BookView, StepView) {
        match self.in_flight {
            None => (self, StepView::Done(ResponseView::bare(Status::InternalError))),
            Some(f) => match f.phase {
                Phase::Reserving => match reply {
                    LedgerReply::Reserved(status) => if status == Status::Success {
                        self.after_reserve(f)
                    } else {
                        (self.idled(), StepView::Done(ResponseView::bare(status)))
                    },
                    _ => (self.idled(), StepView::Done(ResponseView::bare(Status::InternalError))),
                },
                Phase::Trimming => if reply == LedgerReply::Released(Status::Success) {
                    self.settle_or_finish(f)
                } else {
                    (self.idled(), StepView::Done(ResponseView::bare(Status::InternalError)))
                },
                Phase::Settling => if reply == LedgerReply::Settled(Status::Success) {
                    self.finish(f)
                } else {
                    (
                        self.working_on(f.at(Phase::Unwinding)),
                        Self::release_of(f, f.escrowed_qty()),
                    )
                },
                Phase::Unwinding => (
                    self.idled(),
                    StepView::Done(ResponseView::bare(Status::InternalError)),
                ),
            },
        }
    }

    /// The answer to a request for the book.
    pub open spec fn snapshot(self) -> ResponseView {
        ResponseView::snapshot(depth_spec(self.bids), depth_spec(self.asks))
    }
}

/// In a well-formed book every bid is below every ask.
pub proof fn lemma_uncrossed_means_apart(b: BookView)
    requires
        side_ok(Side::Bid, b.bids),
        side_ok(Side::Ask, b.asks),
        b.uncrossed(),
    ensures
        b.apart(),
{
    assert forall|i: int, j: int| 0 <= i < b.bids.len() && 0 <= j < b.asks.len() implies (
    #[trigger] b.bids[i]).price() < (#[trigger] b.asks[j]).price() by {
        let bl = b.bids.len() - 1;
        let al = b.asks.len() - 1;
        if i < bl {
            assert(outranks(Side::Bid, b.bids[bl], b.bids[i]));
        }
        if j < al {
            assert(outranks(Side::Ask, b.asks[al], b.asks[j]));
        }
    }
}

/// Carrying an order out leaves a well-formed book: both sides in order and
/// the best bid strictly below the best ask.
pub proof fn lemma_carried_out_is_wf(b: BookView, f: InFlightView)
    requires
        b.wf(),
        b.in_flight_ok(f),
    ensures
        b.carried_out(f).wf(),
{
    let side = f.side;
    let other = side.flipped();
    let resting = b.side(other);
    let own = b.side(side);
    let out = b.plan(f);
    let limit = f.kind.limit();
    let after = b.carried_out(f);
    lemma_uncrossed_means_apart(b);
    assert(side_ok(other, resting));
    assert(side_ok(side, own));
    lemma_match_keeps_side(other, resting, limit, f.qty);
    lemma_match_leaves_a_prefix(resting, side, limit, f.qty);
    lemma_match_leaves_no_cross(other, resting, limit, f.qty);
    lemma_match_conserves_quantity(resting, side, limit, f.qty);
    assert(after.side(other) == out.rest);
    if f.kind is Limit && out.remaining > 0 {
        let o = b.resting_order(f);
        let r = rank_for(side, own, o.price());
        lemma_rested_keeps_side(side, own, o);
        lemma_rank_splits_side(side, own, o.price());
        let queue = rested(side, own, o);
        assert(after.side(side) == queue);
        assert forall|i: int| 0 <= i < queue.len() implies (#[trigger] queue[i]).order_id
            < after.next_order_id && queue[i].sequence < after.next_sequence && (queue[i] == o
            || exists|k: int| 0 <= k < own.len() && own[k] == queue[i]) by {
            if i < r {
                assert(queue[i] == own[i]);
            } else if i > r {
                assert(queue[i] == own[i - 1]);
            }
        }
        assert(after.apart()) by {
            assert forall|i: int, j: int|
                0 <= i < after.bids.len() && 0 <= j < after.asks.len() implies (
            #[trigger] after.bids[i]).price() < (#[trigger] after.asks[j]).price() by {
                match side {
                    Side::Bid => {
                        assert(same_order(out.rest[j], resting[j]));
                        if queue[i] == o {
                            assert(!crosses(side, limit, out.rest[j].price()));
                        } else {
                            let k = choose|k: int| 0 <= k < own.len() && own[k] == queue[i];
                            assert(b.bids[k].price() < b.asks[j].price());
                        }
                    },
                    Side::Ask => {
                        assert(same_order(out.rest[i], resting[i]));
                        if queue[j] == o {
                            assert(!crosses(side, limit, out.rest[i].price()));
                        } else {
                            let k = choose|k: int| 0 <= k < own.len() && own[k] == queue[j];
                            assert(b.bids[i].price() < b.asks[k].price());
                        }
                    },
                }
            }
        }
    } else {
        assert(after.side(side) == own);
        assert(after.apart()) by {
            assert forall|i: int, j: int|
                0 <= i < after.bids.len() && 0 <= j < after.asks.len() implies (
            #[trigger] after.bids[i]).price() < (#[trigger] after.asks[j]).price() by {
                match side {
                    Side::Bid => {
                        assert(same_order(out.rest[j], resting[j]));
                        assert(b.bids[i].price() < b.asks[j].price());
                    },
                    Side::Ask => {
                        assert(same_order(out.rest[i], resting[i]));
                        assert(b.bids[i].price() < b.asks[j].price());
                    },
                }
            }
        }
    }
    assert(after.numbered()) by {
        assert forall|i: int| 0 <= i < out.rest.len() implies (#[trigger] out.rest[i]).order_id
            < after.next_order_id && out.rest[i].sequence < after.next_sequence by {
            assert(same_order(out.rest[i], resting[i]));
        }
    }
}

/// Taking a limit order in leaves a well-formed book well-formed.
pub proof fn lemma_begin_limit_keeps_wf(
    b: BookView,
    market_id: u64,
    owner: Seq<char>,
    side: Side,
    qty: u64,
    price: u64,
)
    requires
        b.wf(),
    ensures
        b.begin_limit_spec(market_id, owner, side, qty, price).0.wf(),
{
}

/// Taking a market order in leaves a well-formed book well-formed.
pub proof fn lemma_begin_market_keeps_wf(
    b: BookView,
    market_id: u64,
    owner: Seq<char>,
    side: Side,
    qty: u64,
)
    requires
        b.wf(),
    ensures
        b.begin_market_spec(market_id, owner, side, qty).0.wf(),
{
}

/// Whatever the ledger replies, the next step leaves a well-formed book.
pub proof fn lemma_resume_keeps_wf(b: BookView, reply: LedgerReply)
    requires
        b.wf(),
    ensures
        b.resume_spec(reply).0.wf(),
{
    match b.in_flight {
        None => {},
        Some(f) => {
            let out = b.plan(f);
            let planned = InFlightView {
                trades: b.planned_trades(f),
                remaining: out.remaining,
                ..f
            };
            assert(b.plan(planned) == out);
            assert(b.planned_trades(planned) == b.planned_trades(f));
            assert(b.plan(f.at(Phase::Settling)) == out);
            assert(b.planned_trades(f.at(Phase::Settling)) == b.planned_trades(f));
            assert(b.plan(planned.at(Phase::Settling)) == out);
            assert(b.plan(planned.at(Phase::Trimming)) == out);
            if b.next_trade_sequence + out.fills.len() <= u64::MAX {
                lemma_carried_out_is_wf(b, planned);
            }
            lemma_carried_out_is_wf(b, f);
        },
    }
}

impl BookView {
    /// Whether the two books hold the same resting orders and numbers.
    pub open spec fn same_content(self, other: BookView) -> bool {
        &&& self.bids == other.bids
        &&& self.asks == other.asks
        &&& self.next_order_id == other.next_order_id
        &&& self.next_sequence == other.next_sequence
        &&& self.next_trade_sequence == other.next_trade_sequence
    }
}

/// Reservation comes before any change to the book: taking an order in
/// changes nothing that rests in it.
pub proof fn lemma_taking_in_changes_no_content(
    b: BookView,
    market_id: u64,
    owner: Seq<char>,
    side: Side,
    qty: u64,
    price: u64,
)
    ensures
        b.begin_limit_spec(market_id, owner, side, qty, price).0.same_content(b),
        b.begin_market_spec(market_id, owner, side, qty).0.same_content(b),
{
}

/// Settlement goes together with the change to the book: a step changes what
/// rests in the book only by carrying the order in flight out whole, and it
/// does so only on the ledger's word that the trades are settled, or when the
/// order makes no trade. Such a step answers the order `Ok`.
pub proof fn lemma_book_changes_only_with_settlement(b: BookView, reply: LedgerReply)
    requires
        b.wf(),
    ensures
        ({
            let (after, step) = b.resume_spec(reply);
            !after.same_content(b) ==> {
                &&& b.in_flight matches Some(f)
                &&& after == b.carried_out(f)
                &&& step matches StepView::Done(response)
                &&& response.status == Status::Success
                &&& (f.phase is Settling && reply == LedgerReply::Settled(Status::Success))
                    || b.plan(f).fills.len() == 0
            }
        }),
{
    match b.in_flight {
        None => {},
        Some(f) => {
            let out = b.plan(f);
            let planned = InFlightView {
                trades: b.planned_trades(f),
                remaining: out.remaining,
                ..f
            };
            assert(b.plan(planned) == out);
            assert(b.carried_out(planned) == b.carried_out(f));
            assert(b.planned_trades(f).len() == out.fills.len());
        },
    }
}

/// The limit order book of one market.
#[derive(Debug)]
pub struct MarketBook {
    bids: Vec<Order>,
    asks: Vec<Order>,
    next_order_id: u64,
    next_sequence: u64,
    next_trade_sequence: u64,
    in_flight: Option<InFlight>,
}

/// The mathematical content of the order in flight, if there is one.
pub open spec fn in_flight_view(f: Option<InFlight>) -> Option<InFlightView> {
    match f {
        Some(f) => Some(f@),
        None => None,
    }
}

impl View for MarketBook {
    type V = BookView;

    closed spec fn view(&self) -> BookView {
        BookView {
            bids: order_views(self.bids@),
            asks: order_views(self.asks@),
            next_order_id: self.next_order_id,
            next_sequence: self.next_sequence,
            next_trade_sequence: self.next_trade_sequence,
            in_flight: in_flight_view(self.in_flight),
        }
    }
}

impl MarketBook {
    /// The book is well-formed.
    pub open spec fn wf(&self) -> bool {
        self@.wf()
    }

    /// The empty book: nothing rests, nothing is in flight, and orders and
    /// trades are numbered from 1.
    pub open spec fn new_spec() -> BookView {
        BookView {
            bids: Seq::empty(),
            asks: Seq::empty(),
            next_order_id: 1,
            next_sequence: 1,
            next_trade_sequence: 1,
            in_flight: None,
        }
    }

    /// An empty book. Orders and trades are numbered from 1.
    pub fn new() -> (book: MarketBook)
        ensures
            book.wf(),
            book@ == Self::new_spec(),
    {
        let book = MarketBook {
            bids: Vec::new(),
            asks: Vec::new(),
            next_order_id: 1,
            next_sequence: 1,
            next_trade_sequence: 1,
            in_flight: None,
        };
        assert(book@.bids =~= Seq::<OrderView>::empty());
        assert(book@.asks =~= Seq::<OrderView>::empty());
        book
    }

    /// Whether the book is free to take a new order.
    pub fn is_idle(&self) -> (idle: bool)
        ensures
            idle == self@.idle(),
    {
        self.in_flight.is_none()
    }

    /// The highest price a resting bid stands at.
    pub fn best_bid_price(&self) -> (best: Option<u64>)
        ensures
            best == (if self@.bids.len() > 0 {
                Some(self@.bids.last().price())
            } else {
                None
            }),
    {
        let n = self.bids.len();
        if n > 0 {
            Some(self.bids[n - 1].price())
        } else {
            None
        }
    }

    /// The lowest price a resting ask stands at.
    pub fn best_ask_price(&self) -> (best: Option<u64>)
        ensures
            best == (if self@.asks.len() > 0 {
                Some(self@.asks.last().price())
            } else {
                None
            }),
    {
        let n = self.asks.len();
        if n > 0 {
            Some(self.asks[n - 1].price())
        } else {
            None
        }
    }

    /// The number of orders resting on a side.
    pub fn resting_count(&self, side: Side) -> (n: usize)
        ensures
            n == self@.side(side).len(),
    {
        match side {
            Side::Bid => self.bids.len(),
            Side::Ask => self.asks.len(),
        }
    }

    /// A snapshot of the book: for each side the total resting quantity at
    /// each price, the most aggressive price first. The book is left as it is.
    pub fn get_book(&self) -> (response: OrderbookResponse)
        ensures
            response@ == self@.snapshot(),
    {
        OrderbookResponse::snapshot(depth_of(&self.bids), depth_of(&self.asks))
    }

    fn has_numbers_left(&self) -> (yes: bool)
        ensures
            yes == !self@.exhausted(),
    {
        self.next_order_id < u64::MAX && self.next_sequence < u64::MAX
    }

    /// Takes a limit order in: refuses it, or asks the ledger for its escrow.
    /// An order of quantity or price zero is refused as `InvalidOrder` before
    /// anything is reserved. A book that is still working on an order, or has
    /// run out of order numbers, answers `InternalError`.
    pub fn begin_limit_order(
        &mut self,
        market_id: u64,
        owner: String,
        side: Side,
        qty: u64,
        price: u64,
    ) -> (step: BookStep)
        requires
            old(self).wf(),
        ensures
            final(self).wf(),
            (final(self)@, step@) == old(self)@.begin_limit_spec(market_id, owner@, side, qty, price),
    {
        if qty == 0 || price == 0 {
            return BookStep::Done(OrderbookResponse::bare(Status::InvalidOrder));
        }
        if !self.is_idle() || !self.has_numbers_left() {
            return BookStep::Done(OrderbookResponse::bare(Status::InternalError));
        }
        let request = LedgerCommand::Reserve { email: owner.clone(), side, qty, price: Some(price) };
        let f = InFlight {
            market_id,
            owner,
            side,
            kind: OrderKind::Limit { price },
            qty,
            bound: price,
            phase: Phase::Reserving,
            trades: Vec::new(),
            remaining: qty,
        };
        assert(f@.trades =~= Seq::<TradeView>::empty());
        self.in_flight = Some(f);
        BookStep::Request(request)
    }

    /// Takes a market order in: refuses it, or asks the ledger for its escrow
    /// at the best price of the opposite side. An order of quantity zero is
    /// refused as `InvalidOrder`, one that finds the opposite side empty as
    /// `NoLiquidity`, before anything is reserved.
    pub fn begin_market_order(&mut self, market_id: u64, owner: String, side: Side, qty: u64) -> (step:
        BookStep)
        requires
            old(self).wf(),
        ensures
            final(self).wf(),
            (final(self)@, step@) == old(self)@.begin_market_spec(market_id, owner@, side, qty),
    {
        if qty == 0 {
            return BookStep::Done(OrderbookResponse::bare(Status::InvalidOrder));
        }
        if !self.is_idle() || !self.has_numbers_left() {
            return BookStep::Done(OrderbookResponse::bare(Status::InternalError));
        }
        let best = match side {
            Side::Bid => self.best_ask_price(),
            Side::Ask => self.best_bid_price(),
        };
        let bound = match best {
            Some(bound) => bound,
            None => {
                return BookStep::Done(OrderbookResponse::bare(Status::NoLiquidity));
            },
        };
        let request = LedgerCommand::Reserve { email: owner.clone(), side, qty, price: Some(bound) };
        let f = InFlight {
            market_id,
            owner,
            side,
            kind: OrderKind::Market,
            qty,
            bound,
            phase: Phase::Reserving,
            trades: Vec::new(),
            remaining: qty,
        };
        assert(f@.trades =~= Seq::<TradeView>::empty());
        self.in_flight = Some(f);
        BookStep::Request(request)
    }

    /// Takes the ledger's reply to the last request and makes the next step
    /// of the order in flight. A reply that comes when nothing is in flight,
    /// or that does not answer the request, ends the order with
    /// `InternalError`.
    pub fn resume(&mut self, reply: LedgerReply) -> (step: BookStep)
        requires
            old(self).wf(),
        ensures
            final(self).wf(),
            (final(self)@, step@) == old(self)@.resume_spec(reply),
    {
        proof {
            lemma_resume_keeps_wf(self@, reply);
        }
        let f = match self.in_flight.take() {
            Some(f) => f,
            None => {
                return BookStep::Done(OrderbookResponse::bare(Status::InternalError));
            },
        };
        match f.phase {
            Phase::Reserving => match reply {
                LedgerReply::Reserved(status) => if status.is_ok() {
                    self.after_reserve(f)
                } else {
                    BookStep::Done(OrderbookResponse::bare(status))
                },
                _ => BookStep::Done(OrderbookResponse::bare(Status::InternalError)),
            },
            Phase::Trimming => match reply {
                LedgerReply::Released(Status::Success) => self.settle_or_finish(f),
                _ => BookStep::Done(OrderbookResponse::bare(Status::InternalError)),
            },
            Phase::Settling => match reply {
                LedgerReply::Settled(Status::Success) => self.finish(f),
                _ => {
                    proof {
                        lemma_match_conserves_quantity(
                            old(self)@.side(f@.side.flipped()),
                            f@.side,
                            f@.kind.limit(),
                            f@.qty,
                        );
                    }
                    let escrowed = match f.kind {
                        OrderKind::Limit { .. } => f.qty,
                        OrderKind::Market => f.qty - f.remaining,
                    };
                    self.unwind(f, escrowed)
                },
            },
            Phase::Unwinding => BookStep::Done(OrderbookResponse::bare(Status::InternalError)),
        }
    }

    /// Gives the order in flight up, for the case that the ledger's reply
    /// never comes: the order is dropped, the book stays as it is, and the
    /// caller is answered `InternalError`. What the ledger did with the last
    /// request is not known to the book.
    pub fn abandon(&mut self) -> (response: OrderbookResponse)
        requires
            old(self).wf(),
        ensures
            final(self).wf(),
            final(self)@ == old(self)@.idled(),
            response@ == ResponseView::bare(Status::InternalError),
    {
        self.in_flight = None;
        OrderbookResponse::bare(Status::InternalError)
    }

    fn unwind(&mut self, f: InFlight, qty: u64) -> (step: BookStep)
        requires
            old(self)@.idle(),
        ensures
            final(self)@ == old(self)@.working_on(f@.at(Phase::Unwinding)),
            step@ == BookView::release_of(f@, qty),
    {
        let request = LedgerCommand::ReleaseReservation {
            email: f.owner.clone(),
            side: f.side,
            qty,
            price: Some(f.bound),
        };
        self.in_flight = Some(InFlight { phase: Phase::Unwinding, ..f });
        BookStep::Request(request)
    }

    fn after_reserve(&mut self, f: InFlight) -> (step: BookStep)
        requires
            old(self)@.idle(),
            old(self)@.wf(),
            old(self)@.in_flight_ok(f@),
            f@.phase is Reserving,
        ensures
            (final(self)@, step@) == old(self)@.after_reserve(f@),
    {
        let limit = f.kind.limit_price();
        let plan = match f.side {
            Side::Bid => plan_fills(
                &self.asks,
                &f.owner,
                f.side,
                limit,
                f.qty,
                f.market_id,
                self.next_trade_sequence,
            ),
            Side::Ask => plan_fills(
                &self.bids,
                &f.owner,
                f.side,
                limit,
                f.qty,
                f.market_id,
                self.next_trade_sequence,
            ),
        };
        match plan {
            None => {
                let qty = f.qty;
                self.unwind(f, qty)
            },
            Some((trades, remaining)) => {
                let is_market = match f.kind {
                    OrderKind::Market => true,
                    OrderKind::Limit { .. } => false,
                };
                let planned = InFlight { trades, remaining, ..f };
                if is_market && remaining > 0 {
                    let request = LedgerCommand::ReleaseReservation {
                        email: planned.owner.clone(),
                        side: planned.side,
                        qty: remaining,
                        price: Some(planned.bound),
                    };
                    self.in_flight = Some(InFlight { phase: Phase::Trimming, ..planned });
                    BookStep::Request(request)
                } else {
                    proof {
                        assert(old(self)@.plan(planned@) == old(self)@.plan(f@));
                    }
                    self.settle_or_finish(planned)
                }
            },
        }
    }

    fn settle_or_finish(&mut self, f: InFlight) -> (step: BookStep)
        requires
            old(self)@.idle(),
            old(self)@.wf(),
            old(self)@.in_flight_ok(f@),
            old(self)@.next_trade_sequence + old(self)@.plan(f@).fills.len() <= u64::MAX,
            f@.trades == old(self)@.planned_trades(f@),
            f@.remaining == old(self)@.plan(f@).remaining,
        ensures
            (final(self)@, step@) == old(self)@.settle_or_finish(f@),
    {
        if f.trades.len() == 0 {
            self.finish(f)
        } else {
            let request = LedgerCommand::Settle { trades: copy_trades(&f.trades) };
            self.in_flight = Some(InFlight { phase: Phase::Settling, ..f });
            BookStep::Request(request)
        }
    }

    fn finish(&mut self, f: InFlight) -> (step: BookStep)
        requires
            old(self)@.idle(),
            old(self)@.wf(),
            old(self)@.in_flight_ok(f@),
            old(self)@.next_trade_sequence + old(self)@.plan(f@).fills.len() <= u64::MAX,
            f@.trades == old(self)@.planned_trades(f@),
            f@.remaining == old(self)@.plan(f@).remaining,
        ensures
            (final(self)@, step@) == old(self)@.finish(f@),
    {
        let ghost before = self@;
        let ghost out = before.plan(f@);
        let ghost target = before.carried_out(f@);
        let limit = f.kind.limit_price();
        match f.side {
            Side::Bid => apply_fills(&mut self.asks, f.side, limit, f.qty),
            Side::Ask => apply_fills(&mut self.bids, f.side, limit, f.qty),
        }
        assert(self@.side(f@.side.flipped()) == out.rest);
        assert(self@.side(f@.side) == before.side(f@.side));
        let rests = match f.kind {
            OrderKind::Limit { .. } => f.remaining > 0,
            OrderKind::Market => false,
        };
        assert(f.trades@.len() == trade_views(f.trades@).len() == out.fills.len());
        let made = f.trades.len() as u64;
        if rests {
            let order = Order {
                order_id: self.next_order_id,
                owner: f.owner,
                side: f.side,
                kind: f.kind,
                original_qty: f.qty,
                remaining_qty: f.remaining,
                sequence: self.next_sequence,
            };
            assert(order@ == old(self)@.resting_order(f@));
            match f.side {
                Side::Bid => rest_order(&mut self.bids, order),
                Side::Ask => rest_order(&mut self.asks, order),
            }
        }
        self.next_order_id = self.next_order_id + 1;
        self.next_sequence = self.next_sequence + 1;
        self.next_trade_sequence = self.next_trade_sequence + made;
        assert(self@.side(f@.side.flipped()) == target.side(f@.side.flipped()));
        assert(self@.side(f@.side) == target.side(f@.side));
        assert(self@ == target);
        BookStep::Done(OrderbookResponse::filled(f.trades, f.remaining))
    }
}

} // verus!
