//! Orders from placement to answer: a book and the ledger worked together,
//! request by request, until the order is answered.
//!
//! What placing an order comes to is stated twice: as the run of the
//! request/reply steps ([`drive_spec`]), and directly ([`limit_order_spec`],
//! [`market_order_spec`]). The two are proved to agree.

use vstd::prelude::*;
use crate::book::{BookView, InFlightView, MarketBook, Phase, lemma_carried_out_is_wf};
use crate::domain::{OrderKind, Side, Status, TradeView};
use crate::ledger::{
    Ledger, LedgerCommandView, LedgerModel, LedgerReply, apply_spec, lemma_release_in_parts,
    lemma_release_undoes_reserve, lemma_settle_all_keeps_sound, release_spec, reserve_spec,
    settle_all_spec, sound_ledger,
};
use crate::matching::{lemma_match_conserves_quantity, lemma_rank_splits_side, rank_for};
use crate::protocol::{BookStep, OrderbookResponse, ResponseView, StepView};

verus! {

/// Where a command leaves the book and the ledger, and how it is answered.
pub ghost struct Placement {
    pub book: BookView,
    pub ledger: LedgerModel,
    pub response: ResponseView,
}

/// The outcome of a command that is refused: nothing changes.
pub open spec fn refused(b: BookView, m: LedgerModel, status: Status) -> Placement {
    Placement { book: b, ledger: m, response: ResponseView::bare(status) }
}

/// How many requests a book may still make before it answers.
pub open spec fn steps_left(b: BookView, step: StepView) -> nat {
    match step {
        StepView::Done(_) => 0,
        StepView::Request(_) => match b.in_flight {
            None => 1,
            Some(f) => match f.phase {
                Phase::Unwinding => 2,
                Phase::Settling => 3,
                Phase::Trimming => 4,
                Phase::Reserving => 5,
            },
        },
    }
}

/// The run of an order from a given step on: every request is put to the
/// ledger, and its reply handed to the book, until the book answers. The run
/// is finite because every step brings the answer closer
/// ([`lemma_steps_run_out`]); the branch for a step that does not is never
/// taken.
pub open spec fn drive_spec(b: BookView, m: LedgerModel, step: StepView) -> Placement
    decreases steps_left(b, step),
{
    match step {
        StepView::Done(response) => Placement { book: b, ledger: m, response },
        StepView::Request(command) => {
            let (ledger, reply) = apply_spec(m, command);
            let (book, next) = b.resume_spec(reply);
            if steps_left(book, next) < steps_left(b, step) {
                drive_spec(book, ledger, next)
            } else {
                Placement { book, ledger, response: ResponseView::bare(Status::InternalError) }
            }
        },
    }
}

/// Every step of a book brings its answer closer.
pub proof fn lemma_steps_run_out(b: BookView, step: StepView, reply: LedgerReply)
    requires
        step is Request,
    ensures
        steps_left(b.resume_spec(reply).0, b.resume_spec(reply).1) < steps_left(b, step),
{
}

/// The order that a limit order placement puts in flight.
pub open spec fn limit_order(market_id: u64, owner: Seq<char>, side: Side, qty: u64, price: u64) -> InFlightView {
    InFlightView {
        market_id,
        owner,
        side,
        kind: OrderKind::Limit { price },
        qty,
        bound: price,
        phase: Phase::Reserving,
        trades: Seq::empty(),
        remaining: qty,
    }
}

/// The order that a market order placement puts in flight, with its escrow
/// computed at `bound`.
pub open spec fn market_order(market_id: u64, owner: Seq<char>, side: Side, qty: u64, bound: u64) -> InFlightView {
    InFlightView {
        market_id,
        owner,
        side,
        kind: OrderKind::Market,
        qty,
        bound,
        phase: Phase::Reserving,
        trades: Seq::empty(),
        remaining: qty,
    }
}

/// What placing a limit order comes to.
///
/// The order is refused, and nothing changes, when it is malformed
/// (`InvalidOrder`), when its owner is unknown or cannot cover its escrow
/// (`UserNotFound`, `InsufficientFunds`, `InsufficientHoldings`), and when the
/// book is busy, out of numbers, or the trades cannot be settled
/// (`InternalError`). Otherwise the escrow is reserved, the order is matched
/// against the opposite side, every trade is settled, and what is left of the
/// order rests in the book.
pub open spec fn limit_order_spec(
    b: BookView,
    m: LedgerModel,
    market_id: u64,
    owner: Seq<char>,
    side: Side,
    qty: u64,
    price: u64,
) -> Placement {
    let f = limit_order(market_id, owner, side, qty, price);
    let (reserved, status) = reserve_spec(m, owner, side, qty, Some(price));
    if qty == 0 || price == 0 {
        refused(b, m, Status::InvalidOrder)
    } else if !b.idle() || b.exhausted() {
        refused(b, m, Status::InternalError)
    } else if status != Status::Success {
        refused(b, m, status)
    } else if b.next_trade_sequence + b.plan(f).fills.len() > u64::MAX {
        refused(b, m, Status::InternalError)
    } else {
        match settle_all_spec(reserved, b.planned_trades(f)) {
            None => refused(b, m, Status::InternalError),
            Some(settled) => Placement {
                book: b.carried_out(f),
                ledger: settled,
                response: ResponseView::filled(b.planned_trades(f), b.plan(f).remaining),
            },
        }
    }
}

/// What placing a market order comes to.
///
/// The order is refused, and nothing changes, when its quantity is zero
/// (`InvalidOrder`), when the opposite side is empty (`NoLiquidity`), when its
/// owner is unknown or cannot cover its escrow at the best opposite price
/// (`UserNotFound`, `InsufficientFunds`, `InsufficientHoldings`), and when the
/// book is busy, out of numbers, or the trades cannot be settled
/// (`InternalError`). Otherwise the order is matched against the opposite
/// side at whatever price rests there, the escrow of what finds no
/// counterparty is handed back, every trade is settled, and nothing of the
/// order rests.
pub open spec fn market_order_spec(
    b: BookView,
    m: LedgerModel,
    market_id: u64,
    owner: Seq<char>,
    side: Side,
    qty: u64,
) -> Placement {
    let opposite = b.side(side.flipped());
    let bound = opposite.last().price();
    let f = market_order(market_id, owner, side, qty, bound);
    let (reserved, status) = reserve_spec(m, owner, side, qty, Some(bound));
    let unfilled = b.plan(f).remaining;
    let trimmed = if unfilled > 0 {
        release_spec(reserved, owner, side, unfilled, Some(bound)).0
    } else {
        reserved
    };
    if qty == 0 {
        refused(b, m, Status::InvalidOrder)
    } else if !b.idle() || b.exhausted() {
        refused(b, m, Status::InternalError)
    } else if opposite.len() == 0 {
        refused(b, m, Status::NoLiquidity)
    } else if status != Status::Success {
        refused(b, m, status)
    } else if b.next_trade_sequence + b.plan(f).fills.len() > u64::MAX {
        refused(b, m, Status::InternalError)
    } else {
        match settle_all_spec(trimmed, b.planned_trades(f)) {
            None => refused(b, m, Status::InternalError),
            Some(settled) => Placement {
                book: b.carried_out(f),
                ledger: settled,
                response: ResponseView::filled(b.planned_trades(f), unfilled),
            },
        }
    }
}

/// A request is put to the ledger and the run goes on from the book's next step.
pub proof fn lemma_drive_step(b: BookView, m: LedgerModel, command: LedgerCommandView)
    ensures
        drive_spec(b, m, StepView::Request(command)) == ({
            let (ledger, reply) = apply_spec(m, command);
            let (book, next) = b.resume_spec(reply);
            drive_spec(book, ledger, next)
        }),
{
    let reply = apply_spec(m, command).1;
    lemma_steps_run_out(b, StepView::Request(command), reply);
}

/// How the run of an order ends once its escrow is being handed back: the
/// book is free again and the order is answered `InternalError`.
pub proof fn lemma_unwinding_ends(b: BookView, m: LedgerModel, f: InFlightView, qty: u64)
    ensures
        drive_spec(b.working_on(f.at(Phase::Unwinding)), m, BookView::release_of(f, qty))
            == refused(
            b.idled(),
            release_spec(m, f.owner, f.side, qty, Some(f.bound)).0,
            Status::InternalError,
        ),
{
    let w = b.working_on(f.at(Phase::Unwinding));
    lemma_drive_step(
        w,
        m,
        LedgerCommandView::ReleaseReservation {
            email: f.owner,
            side: f.side,
            qty,
            price: Some(f.bound),
        },
    );
    assert(w.idled() == b.idled());
}

/// Where the run of an order ends once its escrow is as it should be: with
/// the order carried out if its trades can be settled, and else with its
/// escrow handed back and the book as it was.
pub open spec fn settled_or_unwound(b: BookView, m: LedgerModel, f: InFlightView) -> Placement {
    match settle_all_spec(m, f.trades) {
        Some(settled) => Placement {
            book: b.carried_out(f),
            ledger: settled,
            response: ResponseView::filled(f.trades, f.remaining),
        },
        None => refused(
            b.idled(),
            release_spec(m, f.owner, f.side, f.escrowed_qty(), Some(f.bound)).0,
            Status::InternalError,
        ),
    }
}

/// The run of an order from the settlement of its trades on.
pub proof fn lemma_settling_ends(b: BookView, m: LedgerModel, f: InFlightView)
    ensures
        ({
            let (book, step) = b.settle_or_finish(f);
            drive_spec(book, m, step) == settled_or_unwound(b, m, f)
        }),
{
    if f.trades.len() == 0 {
        assert(f.trades =~= Seq::<TradeView>::empty());
    } else {
        let g = f.at(Phase::Settling);
        let w = b.working_on(g);
        lemma_drive_step(w, m, LedgerCommandView::Settle { trades: f.trades });
        assert(w.carried_out(g) == b.carried_out(f));
        assert(g.escrowed_qty() == f.escrowed_qty());
        lemma_unwinding_ends(w, m, g, g.escrowed_qty());
        assert(g.at(Phase::Unwinding) == f.at(Phase::Unwinding));
        assert(w.idled() == b.idled());
    }
}

/// Where the run of an order ends once its escrow stands.
pub open spec fn matched_and_settled(b: BookView, m: LedgerModel, f: InFlightView) -> Placement {
    let out = b.plan(f);
    let planned = InFlightView { trades: b.planned_trades(f), remaining: out.remaining, ..f };
    if b.next_trade_sequence + out.fills.len() > u64::MAX {
        refused(
            b.idled(),
            release_spec(m, f.owner, f.side, f.qty, Some(f.bound)).0,
            Status::InternalError,
        )
    } else if f.kind is Market && out.remaining > 0 {
        let (trimmed, status) = release_spec(m, f.owner, f.side, out.remaining, Some(f.bound));
        if status == Status::Success {
            settled_or_unwound(b, trimmed, planned)
        } else {
            refused(b.idled(), trimmed, Status::InternalError)
        }
    } else {
        settled_or_unwound(b, m, planned)
    }
}

/// The run of an order from the moment its escrow stands.
pub proof fn lemma_after_reserve_ends(b: BookView, m: LedgerModel, f: InFlightView)
    ensures
        ({
            let (book, step) = b.after_reserve(f);
            drive_spec(book, m, step) == matched_and_settled(b, m, f)
        }),
{
    let out = b.plan(f);
    let planned = InFlightView { trades: b.planned_trades(f), remaining: out.remaining, ..f };
    if b.next_trade_sequence + out.fills.len() > u64::MAX {
        lemma_unwinding_ends(b, m, f, f.qty);
    } else if f.kind is Market && out.remaining > 0 {
        let g = planned.at(Phase::Trimming);
        let w = b.working_on(g);
        lemma_drive_step(
            w,
            m,
            LedgerCommandView::ReleaseReservation {
                email: f.owner,
                side: f.side,
                qty: out.remaining,
                price: Some(f.bound),
            },
        );
        let trimmed = release_spec(m, f.owner, f.side, out.remaining, Some(f.bound)).0;
        lemma_settling_ends(w, trimmed, g);
        assert(w.carried_out(g) == b.carried_out(planned));
        assert(w.idled() == b.idled());
        assert(g.escrowed_qty() == planned.escrowed_qty());
        assert(settled_or_unwound(w, trimmed, g) == settled_or_unwound(b, trimmed, planned));
    } else {
        lemma_settling_ends(b, m, planned);
    }
}

/// The steps of a limit order come to what [`limit_order_spec`] says.
pub proof fn lemma_limit_order_steps(
    b: BookView,
    m: LedgerModel,
    market_id: u64,
    owner: Seq<char>,
    side: Side,
    qty: u64,
    price: u64,
)
    requires
        b.wf(),
    ensures
        ({
            let (book, step) = b.begin_limit_spec(market_id, owner, side, qty, price);
            drive_spec(book, m, step) == limit_order_spec(b, m, market_id, owner, side, qty, price)
        }),
{
    let f = limit_order(market_id, owner, side, qty, price);
    let (reserved, status) = reserve_spec(m, owner, side, qty, Some(price));
    if qty == 0 || price == 0 {
    } else if !b.idle() || b.exhausted() {
    } else {
        let w = b.working_on(f);
        assert(w.idled() == b);
        lemma_drive_step(
            w,
            m,
            LedgerCommandView::Reserve { email: owner, side, qty, price: Some(price) },
        );
        if status == Status::Success {
            lemma_release_undoes_reserve(m, owner, side, qty, Some(price));
            lemma_after_reserve_ends(w, reserved, f);
        }
    }
}

/// The steps of a market order come to what [`market_order_spec`] says.
pub proof fn lemma_market_order_steps(
    b: BookView,
    m: LedgerModel,
    market_id: u64,
    owner: Seq<char>,
    side: Side,
    qty: u64,
)
    requires
        b.wf(),
    ensures
        ({
            let (book, step) = b.begin_market_spec(market_id, owner, side, qty);
            drive_spec(book, m, step) == market_order_spec(b, m, market_id, owner, side, qty)
        }),
{
    let opposite = b.side(side.flipped());
    let bound = opposite.last().price();
    let f = market_order(market_id, owner, side, qty, bound);
    let (reserved, status) = reserve_spec(m, owner, side, qty, Some(bound));
    if qty == 0 {
    } else if !b.idle() || b.exhausted() {
    } else if opposite.len() == 0 {
    } else {
        let w = b.working_on(f);
        assert(w.idled() == b);
        lemma_drive_step(
            w,
            m,
            LedgerCommandView::Reserve { email: owner, side, qty, price: Some(bound) },
        );
        if status == Status::Success {
            lemma_release_undoes_reserve(m, owner, side, qty, Some(bound));
            lemma_match_conserves_quantity(opposite, side, None, qty);
            lemma_release_in_parts(reserved, owner, side, qty, b.plan(f).remaining, Some(bound));
            lemma_after_reserve_ends(w, reserved, f);
        }
    }
}

/// A book is never left crossed: after a limit order, however it ends, the
/// book is well-formed, and its best bid is strictly below its best ask unless
/// a side is empty.
pub proof fn lemma_limit_order_leaves_book_uncrossed(
    b: BookView,
    m: LedgerModel,
    market_id: u64,
    owner: Seq<char>,
    side: Side,
    qty: u64,
    price: u64,
)
    requires
        b.wf(),
    ensures
        ({
            let after = limit_order_spec(b, m, market_id, owner, side, qty, price).book;
            &&& after.wf()
            &&& after.uncrossed()
            &&& after.bids.len() > 0 && after.asks.len() > 0 ==> after.bids.last().price()
                < after.asks.last().price()
        }),
{
    let f = limit_order(market_id, owner, side, qty, price);
    if qty > 0 && price > 0 && b.idle() && !b.exhausted() {
        lemma_carried_out_is_wf(b, f);
    }
}

/// Nor does a market order leave the book crossed.
pub proof fn lemma_market_order_leaves_book_uncrossed(
    b: BookView,
    m: LedgerModel,
    market_id: u64,
    owner: Seq<char>,
    side: Side,
    qty: u64,
)
    requires
        b.wf(),
    ensures
        ({
            let after = market_order_spec(b, m, market_id, owner, side, qty).book;
            &&& after.wf()
            &&& after.uncrossed()
        }),
{
    let bound = b.side(side.flipped()).last().price();
    let f = market_order(market_id, owner, side, qty, bound);
    if qty > 0 && b.idle() && !b.exhausted() {
        lemma_carried_out_is_wf(b, f);
    }
}

/// Market orders never rest: a market order leaves its own side of the book
/// exactly as it was, so nothing in the book belongs to it afterwards.
pub proof fn lemma_market_order_never_rests(
    b: BookView,
    m: LedgerModel,
    market_id: u64,
    owner: Seq<char>,
    side: Side,
    qty: u64,
)
    ensures
        market_order_spec(b, m, market_id, owner, side, qty).book.side(side) == b.side(side),
{
}

/// A limit order that is filled whole does not rest either, and one that
/// rests adds exactly one order to its side: itself, with what was left.
pub proof fn lemma_limit_order_rests_what_is_left(
    b: BookView,
    m: LedgerModel,
    market_id: u64,
    owner: Seq<char>,
    side: Side,
    qty: u64,
    price: u64,
)
    ensures
        ({
            let placed = limit_order_spec(b, m, market_id, owner, side, qty, price);
            let own = placed.book.side(side);
            if placed.response.status == Status::Success && placed.response.remaining_qty > 0 {
                &&& own.len() == b.side(side).len() + 1
                &&& exists|k: int|
                    0 <= k < own.len() && (#[trigger] own[k]).owner == owner && own[k].price()
                        == price && own[k].remaining_qty == placed.response.remaining_qty
                        && own.remove(k) == b.side(side)
            } else {
                own == b.side(side)
            }
        }),
{
    let f = limit_order(market_id, owner, side, qty, price);
    let placed = limit_order_spec(b, m, market_id, owner, side, qty, price);
    if placed.response.status == Status::Success && placed.response.remaining_qty > 0 {
        let before = b.side(side);
        let o = b.resting_order(f);
        let k = rank_for(side, before, o.price());
        lemma_rank_splits_side(side, before, o.price());
        let own = placed.book.side(side);
        assert(own == before.insert(k, o));
        assert(own[k] == o);
        assert(own.remove(k) =~= before);
    }
}

/// A command that is not answered `Ok` changes nothing: neither the book nor
/// the ledger, so no trade is ever applied in part.
pub proof fn lemma_refused_order_changes_nothing(
    b: BookView,
    m: LedgerModel,
    market_id: u64,
    owner: Seq<char>,
    side: Side,
    qty: u64,
    price: u64,
)
    ensures
        ({
            let limit = limit_order_spec(b, m, market_id, owner, side, qty, price);
            let market = market_order_spec(b, m, market_id, owner, side, qty);
            &&& limit.response.status != Status::Success ==> limit == refused(
                b,
                m,
                limit.response.status,
            )
            &&& market.response.status != Status::Success ==> market == refused(
                b,
                m,
                market.response.status,
            )
        }),
{
}

/// Every trade of an order is settled, in the order it was made, on the
/// ledger that holds the order's escrow; and a sound ledger stays sound.
pub proof fn lemma_limit_order_settles_every_trade(
    b: BookView,
    m: LedgerModel,
    market_id: u64,
    owner: Seq<char>,
    side: Side,
    qty: u64,
    price: u64,
)
    requires
        sound_ledger(m),
    ensures
        ({
            let placed = limit_order_spec(b, m, market_id, owner, side, qty, price);
            let escrowed = reserve_spec(m, owner, side, qty, Some(price)).0;
            &&& sound_ledger(placed.ledger)
            &&& placed.response.status == Status::Success ==> settle_all_spec(
                escrowed,
                placed.response.fills,
            ) == Some(placed.ledger)
        }),
{
    let f = limit_order(market_id, owner, side, qty, price);
    let escrowed = reserve_spec(m, owner, side, qty, Some(price)).0;
    lemma_settle_all_keeps_sound(escrowed, b.planned_trades(f));
}

/// The same for a market order, whose escrow is first cut down to the part
/// that finds a counterparty.
pub proof fn lemma_market_order_settles_every_trade(
    b: BookView,
    m: LedgerModel,
    market_id: u64,
    owner: Seq<char>,
    side: Side,
    qty: u64,
)
    requires
        sound_ledger(m),
    ensures
        ({
            let placed = market_order_spec(b, m, market_id, owner, side, qty);
            let bound = b.side(side.flipped()).last().price();
            let reserved = reserve_spec(m, owner, side, qty, Some(bound)).0;
            let unfilled = placed.response.remaining_qty;
            let escrowed = if unfilled > 0 {
                release_spec(reserved, owner, side, unfilled, Some(bound)).0
            } else {
                reserved
            };
            &&& sound_ledger(placed.ledger)
            &&& placed.response.status == Status::Success ==> settle_all_spec(
                escrowed,
                placed.response.fills,
            ) == Some(placed.ledger)
        }),
{
    let bound = b.side(side.flipped()).last().price();
    let f = market_order(market_id, owner, side, qty, bound);
    let reserved = reserve_spec(m, owner, side, qty, Some(bound)).0;
    let unfilled = b.plan(f).remaining;
    let trimmed = release_spec(reserved, owner, side, unfilled, Some(bound)).0;
    lemma_settle_all_keeps_sound(reserved, b.planned_trades(f));
    lemma_settle_all_keeps_sound(trimmed, b.planned_trades(f));
}

/// Works an order off from a given step on: puts every request of the book
/// to the ledger and hands the reply back, until the book answers.
pub fn drive(book: &mut MarketBook, ledger: &mut Ledger, first: BookStep) -> (response:
    OrderbookResponse)
    requires
        old(book).wf(),
        old(ledger).wf(),
    ensures
        final(book).wf(),
        final(ledger).wf(),
        (Placement { book: final(book)@, ledger: final(ledger)@, response: response@ })
            == drive_spec(old(book)@, old(ledger)@, first@),
{
    let mut step = first;
    loop
        invariant
            book.wf(),
            ledger.wf(),
            drive_spec(book@, ledger@, step@) == drive_spec(old(book)@, old(ledger)@, first@),
        decreases steps_left(book@, step@),
    {
        match step {
            BookStep::Done(response) => {
                return response;
            },
            BookStep::Request(command) => {
                proof {
                    let reply = apply_spec(ledger@, command@).1;
                    lemma_steps_run_out(book@, step@, reply);
                }
                let reply = ledger.apply(command);
                step = book.resume(reply);
            },
        }
    }
}

/// Places a limit order: reserves its escrow, matches it against the opposite
/// side, settles every trade, and rests what is left. Either all of that
/// happens or, when the order is refused, none of it.
pub fn place_limit_order(
    book: &mut MarketBook,
    ledger: &mut Ledger,
    market_id: u64,
    owner: String,
    side: Side,
    qty: u64,
    price: u64,
) -> (response: OrderbookResponse)
    requires
        old(book).wf(),
        old(ledger).wf(),
    ensures
        final(book).wf(),
        final(ledger).wf(),
        (Placement { book: final(book)@, ledger: final(ledger)@, response: response@ })
            == limit_order_spec(old(book)@, old(ledger)@, market_id, owner@, side, qty, price),
{
    proof {
        lemma_limit_order_steps(book@, ledger@, market_id, owner@, side, qty, price);
    }
    let first = book.begin_limit_order(market_id, owner, side, qty, price);
    drive(book, ledger, first)
}

/// Places a market order: reserves its escrow at the best opposite price,
/// matches it against whatever rests on the opposite side, hands back the
/// escrow of what finds no counterparty, and settles every trade. Nothing of
/// the order rests. Either all of that happens or, when the order is refused,
/// none of it.
pub fn place_market_order(
    book: &mut MarketBook,
    ledger: &mut Ledger,
    market_id: u64,
    owner: String,
    side: Side,
    qty: u64,
) -> (response: OrderbookResponse)
    requires
        old(book).wf(),
        old(ledger).wf(),
    ensures
        final(book).wf(),
        final(ledger).wf(),
        (Placement { book: final(book)@, ledger: final(ledger)@, response: response@ })
            == market_order_spec(old(book)@, old(ledger)@, market_id, owner@, side, qty),
{
    proof {
        lemma_market_order_steps(book@, ledger@, market_id, owner@, side, qty);
    }
    let first = book.begin_market_order(market_id, owner, side, qty);
    drive(book, ledger, first)
}

} // verus!
