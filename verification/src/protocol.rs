//! The messages that go in and out of a market book: the commands of its
//! callers, its answers, and the steps by which it talks to the ledger while
//! it works a command off.

use vstd::prelude::*;
use crate::domain::{DepthLevel, Side, Status, Trade, TradeView, trade_views};
use crate::ledger::{LedgerCommand, LedgerCommandView};

verus! {

/// A command to the market books.
#[derive(Debug)]
pub enum OrderbookCommand {
    NewLimitOrder { market_id: u64, user_id: String, side: Side, qty: u64, price: u64 },
    NewMarketOrder { market_id: u64, user_id: String, side: Side, qty: u64 },
    GetBook { market_id: u64 },
}

/// The mathematical content of an [`OrderbookCommand`].
pub ghost enum OrderbookCommandView {
    NewLimitOrder { market_id: u64, user_id: Seq<char>, side: Side, qty: u64, price: u64 },
    NewMarketOrder { market_id: u64, user_id: Seq<char>, side: Side, qty: u64 },
    GetBook { market_id: u64 },
}

impl View for OrderbookCommand {
    type V = OrderbookCommandView;

    open spec fn view(&self) -> OrderbookCommandView {
        match *self {
            OrderbookCommand::NewLimitOrder {
                market_id,
                user_id,
                side,
                qty,
                price,
            } => OrderbookCommandView::NewLimitOrder {
                market_id,
                user_id: user_id@,
                side,
                qty,
                price,
            },
            OrderbookCommand::NewMarketOrder {
                market_id,
                user_id,
                side,
                qty,
            } => OrderbookCommandView::NewMarketOrder { market_id, user_id: user_id@, side, qty },
            OrderbookCommand::GetBook { market_id } => OrderbookCommandView::GetBook { market_id },
        }
    }
}

impl OrderbookCommandView {
    /// The market the command is addressed to.
    pub open spec fn market(self) -> u64 {
        match self {
            OrderbookCommandView::NewLimitOrder { market_id, .. } => market_id,
            OrderbookCommandView::NewMarketOrder { market_id, .. } => market_id,
            OrderbookCommandView::GetBook { market_id } => market_id,
        }
    }
}

impl OrderbookCommand {
    /// The market the command is addressed to.
    pub fn market_id(&self) -> (id: u64)
        ensures
            id == self@.market(),
    {
        match self {
            OrderbookCommand::NewLimitOrder { market_id, .. } => *market_id,
            OrderbookCommand::NewMarketOrder { market_id, .. } => *market_id,
            OrderbookCommand::GetBook { market_id } => *market_id,
        }
    }
}

/// The answer to an [`OrderbookCommand`].
#[derive(Debug)]
pub struct OrderbookResponse {
    pub status: Status,
    /// The trades the command made, in the order they were made.
    pub fills: Vec<Trade>,
    /// For a limit order the quantity now resting; for a market order the
    /// quantity that found no counterparty.
    pub remaining_qty: u64,
    /// Depth of the bid side, highest price first; only in a book snapshot.
    pub bids: Option<Vec<DepthLevel>>,
    /// Depth of the ask side, lowest price first; only in a book snapshot.
    pub asks: Option<Vec<DepthLevel>>,
}

/// The mathematical content of an [`OrderbookResponse`].
pub ghost struct ResponseView {
    pub status: Status,
    pub fills: Seq<TradeView>,
    pub remaining_qty: u64,
    pub bids: Option<Seq<DepthLevel>>,
    pub asks: Option<Seq<DepthLevel>>,
}

/// The depth lines of a snapshot, if there are any.
pub open spec fn depth_view(levels: Option<Vec<DepthLevel>>) -> Option<Seq<DepthLevel>> {
    match levels {
        Some(v) => Some(v@),
        None => None,
    }
}

impl View for OrderbookResponse {
    type V = ResponseView;

    open spec fn view(&self) -> ResponseView {
        ResponseView {
            status: self.status,
            fills: trade_views(self.fills@),
            remaining_qty: self.remaining_qty,
            bids: depth_view(self.bids),
            asks: depth_view(self.asks),
        }
    }
}

impl ResponseView {
    /// The answer to a command that changed nothing and traded nothing.
    pub open spec fn bare(status: Status) -> ResponseView {
        ResponseView { status, fills: Seq::empty(), remaining_qty: 0, bids: None, asks: None }
    }

    /// The answer to an order that was carried out.
    pub open spec fn filled(fills: Seq<TradeView>, remaining_qty: u64) -> ResponseView {
        ResponseView { status: Status::Success, fills, remaining_qty, bids: None, asks: None }
    }

    /// The answer to a request for the book.
    pub open spec fn snapshot(bids: Seq<DepthLevel>, asks: Seq<DepthLevel>) -> ResponseView {
        ResponseView {
            status: Status::Success,
            fills: Seq::empty(),
            remaining_qty: 0,
            bids: Some(bids),
            asks: Some(asks),
        }
    }
}

impl OrderbookResponse {
    /// The answer to a command that changed nothing and traded nothing.
    pub fn bare(status: Status) -> (response: OrderbookResponse)
        ensures
            response@ == ResponseView::bare(status),
    {
        let response = OrderbookResponse {
            status,
            fills: Vec::new(),
            remaining_qty: 0,
            bids: None,
            asks: None,
        };
        assert(trade_views(response.fills@) =~= Seq::<TradeView>::empty());
        response
    }

    /// The answer to an order that was carried out.
    pub fn filled(fills: Vec<Trade>, remaining_qty: u64) -> (response: OrderbookResponse)
        ensures
            response@ == ResponseView::filled(trade_views(fills@), remaining_qty),
    {
        OrderbookResponse { status: Status::Success, fills, remaining_qty, bids: None, asks: None }
    }

    /// The answer to a request for the book.
    pub fn snapshot(bids: Vec<DepthLevel>, asks: Vec<DepthLevel>) -> (response: OrderbookResponse)
        ensures
            response@ == ResponseView::snapshot(bids@, asks@),
    {
        let response = OrderbookResponse {
            status: Status::Success,
            fills: Vec::new(),
            remaining_qty: 0,
            bids: Some(bids),
            asks: Some(asks),
        };
        assert(trade_views(response.fills@) =~= Seq::<TradeView>::empty());
        response
    }
}

/// What a book does next while it works a command off: ask the ledger for
/// something and wait for the reply, or answer the caller.
#[derive(Debug)]
pub enum BookStep {
    Request(LedgerCommand),
    Done(OrderbookResponse),
}

/// The mathematical content of a [`BookStep`].
pub ghost enum StepView {
    Request(LedgerCommandView),
    Done(ResponseView),
}

impl View for BookStep {
    type V = StepView;

    open spec fn view(&self) -> StepView {
        match *self {
            BookStep::Request(command) => StepView::Request(command@),
            BookStep::Done(response) => StepView::Done(response@),
        }
    }
}

/// A copy of a run of trades.
pub fn copy_trades(trades: &Vec<Trade>) -> (copy: Vec<Trade>)
    ensures
        trade_views(copy@) == trade_views(trades@),
{
    let mut copy: Vec<Trade> = Vec::new();
    let mut i: usize = 0;
    while i < trades.len()
        invariant
            i <= trades.len(),
            copy.len() == i,
            forall|k: int| 0 <= k < i ==> (#[trigger] copy[k])@ == trades[k]@,
        decreases trades.len() - i,
    {
        copy.push(trades[i].duplicate());
        i += 1;
    }
    assert(trade_views(copy@) =~= trade_views(trades@));
    copy
}

} // verus!
