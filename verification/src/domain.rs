//! Shared vocabulary of the venue: sides, order kinds, orders, trades and the
//! status values that every command answers with.

use vstd::prelude::*;

verus! {

/// The side of the market an order stands on.
#[derive(Clone, Copy, Debug, PartialEq, Eq, Structural)]
pub enum Side {
    /// An offer to buy the base asset with quote currency.
    Bid,
    /// An offer to sell the base asset for quote currency.
    Ask,
}

impl Side {
    /// The side an order of this side trades against.
    pub open spec fn flipped(self) -> Side {
        match self {
            Side::Bid => Side::Ask,
            Side::Ask => Side::Bid,
        }
    }

    /// The side an order of this side trades against.
    pub fn opposite(self) -> (other: Side)
        ensures
            other == self.flipped(),
    {
        match self {
            Side::Bid => Side::Ask,
            Side::Ask => Side::Bid,
        }
    }
}

/// How an order is priced. A limit order carries its price; a market order has none.
#[derive(Clone, Copy, Debug, PartialEq, Eq, Structural)]
pub enum OrderKind {
    Limit { price: u64 },
    Market,
}

impl OrderKind {
    /// The price bound of the order, if it has one.
    pub open spec fn limit(self) -> Option<u64> {
        match self {
            OrderKind::Limit { price } => Some(price),
            OrderKind::Market => None,
        }
    }

    /// The price bound of the order, if it has one.
    pub fn limit_price(self) -> (bound: Option<u64>)
        ensures
            bound == self.limit(),
    {
        match self {
            OrderKind::Limit { price } => Some(price),
            OrderKind::Market => None,
        }
    }
}

/// The terminal answer of a command.
#[derive(Clone, Copy, Debug, PartialEq, Eq, Structural)]
pub enum Status {
    /// The command went through; its label is "Ok".
    Success,
    InsufficientFunds,
    InsufficientHoldings,
    MarketNotFound,
    UserNotFound,
    InvalidOrder,
    NoLiquidity,
    InternalError,
}

impl Status {
    /// The text by which the status is known to callers.
    pub open spec fn label(self) -> Seq<char> {
        match self {
            Status::Success => "Ok"@,
            Status::InsufficientFunds => "InsufficientFunds"@,
            Status::InsufficientHoldings => "InsufficientHoldings"@,
            Status::MarketNotFound => "MarketNotFound"@,
            Status::UserNotFound => "UserNotFound"@,
            Status::InvalidOrder => "InvalidOrder"@,
            Status::NoLiquidity => "NoLiquidity"@,
            Status::InternalError => "InternalError"@,
        }
    }

    /// The text by which the status is known to callers.
    pub fn name(self) -> (text: String)
        ensures
            text@ == self.label(),
    {
        match self {
            Status::Success => "Ok".to_owned(),
            Status::InsufficientFunds => "InsufficientFunds".to_owned(),
            Status::InsufficientHoldings => "InsufficientHoldings".to_owned(),
            Status::MarketNotFound => "MarketNotFound".to_owned(),
            Status::UserNotFound => "UserNotFound".to_owned(),
            Status::InvalidOrder => "InvalidOrder".to_owned(),
            Status::NoLiquidity => "NoLiquidity".to_owned(),
            Status::InternalError => "InternalError".to_owned(),
        }
    }

    /// Whether the command went through.
    pub fn is_ok(self) -> (ok: bool)
        ensures
            ok == (self == Status::Success),
    {
        match self {
            Status::Success => true,
            _ => false,
        }
    }
}

/// An order admitted into a book.
#[derive(Debug)]
pub struct Order {
    /// Assigned by the owning book, increasing with every admitted order.
    pub order_id: u64,
    /// The user the order belongs to.
    pub owner: String,
    pub side: Side,
    pub kind: OrderKind,
    /// The quantity the order was placed for.
    pub original_qty: u64,
    /// The quantity not yet matched.
    pub remaining_qty: u64,
    /// Arrival number within the book; earlier orders match first at equal price.
    pub sequence: u64,
}

/// The mathematical content of an [`Order`].
pub ghost struct OrderView {
    pub order_id: u64,
    pub owner: Seq<char>,
    pub side: Side,
    pub kind: OrderKind,
    pub original_qty: u64,
    pub remaining_qty: u64,
    pub sequence: u64,
}

impl View for Order {
    type V = OrderView;

    open spec fn view(&self) -> OrderView {
        OrderView {
            order_id: self.order_id,
            owner: self.owner@,
            side: self.side,
            kind: self.kind,
            original_qty: self.original_qty,
            remaining_qty: self.remaining_qty,
            sequence: self.sequence,
        }
    }
}

impl OrderView {
    /// The price a resting order stands at (zero for an order without a price).
    pub open spec fn price(self) -> u64 {
        match self.kind {
            OrderKind::Limit { price } => price,
            OrderKind::Market => 0,
        }
    }

    /// The same order with `filled` units fewer left to match.
    pub open spec fn reduced_by(self, filled: int) -> OrderView {
        OrderView { remaining_qty: (self.remaining_qty - filled) as u64, ..self }
    }
}

impl Order {
    /// The price a resting order stands at (zero for an order without a price).
    pub fn price(&self) -> (p: u64)
        ensures
            p == self@.price(),
    {
        match self.kind {
            OrderKind::Limit { price } => price,
            OrderKind::Market => 0,
        }
    }
}

/// The record of one match between a buyer and a seller.
#[derive(Debug)]
pub struct Trade {
    pub buyer: String,
    pub seller: String,
    pub qty: u64,
    /// Always the price of the order that was resting.
    pub price: u64,
    pub market_id: u64,
    /// Number of the trade within its market.
    pub sequence: u64,
}

/// The mathematical content of a [`Trade`].
pub ghost struct TradeView {
    pub buyer: Seq<char>,
    pub seller: Seq<char>,
    pub qty: u64,
    pub price: u64,
    pub market_id: u64,
    pub sequence: u64,
}

impl View for Trade {
    type V = TradeView;

    open spec fn view(&self) -> TradeView {
        TradeView {
            buyer: self.buyer@,
            seller: self.seller@,
            qty: self.qty,
            price: self.price,
            market_id: self.market_id,
            sequence: self.sequence,
        }
    }
}

impl Trade {
    /// A copy of the record.
    pub fn duplicate(&self) -> (copy: Trade)
        ensures
            copy@ == self@,
    {
        Trade {
            buyer: self.buyer.clone(),
            seller: self.seller.clone(),
            qty: self.qty,
            price: self.price,
            market_id: self.market_id,
            sequence: self.sequence,
        }
    }
}

/// The views of a run of orders, in the same order.
pub open spec fn order_views(orders: Seq<Order>) -> Seq<OrderView> {
    orders.map_values(|o: Order| o@)
}

/// The views of a run of trades, in the same order.
pub open spec fn trade_views(trades: Seq<Trade>) -> Seq<TradeView> {
    trades.map_values(|t: Trade| t@)
}

/// One line of a book snapshot: a price and everything resting at it.
#[derive(Clone, Copy, Debug, PartialEq, Eq, Structural)]
pub struct DepthLevel {
    pub price: u64,
    /// The sum of the remaining quantities of the orders resting at `price`.
    pub quantity: u128,
}

} // verus!
