//! The shapes in which requests reach the venue from its HTTP front and in
//! which answers leave it, and the rules that turn one into the other.

use axum::http::StatusCode;
use axum::http::status::InvalidStatusCode;
use vstd::prelude::*;
use crate::domain::{DepthLevel, Side, Status, Trade, trade_views};
use crate::ledger::{
    DepositOutcome, LedgerCommand, LedgerCommandView, LedgerReply, SigninOutcome, SignupOutcome,
};
use crate::protocol::{OrderbookCommand, OrderbookCommandView, OrderbookResponse, depth_view};

verus! {

/// The status code type of the `http` crate, carried through as it is.
#[verifier::external_type_specification]
#[verifier::external_body]
pub struct ExStatusCode(StatusCode);

/// The error of the `http` crate for a number that is no status code.
#[verifier::external_type_specification]
#[verifier::external_body]
pub struct ExInvalidStatusCode(InvalidStatusCode);

/// The status code that `StatusCode::from_u16` makes of a number.
pub uninterp spec fn status_with_number(code: u16) -> StatusCode;

/// `StatusCode::from_u16`. It accepts exactly the numbers from 100 to 999,
/// and what it returns depends on the number alone.
#[verifier::external_body]
fn status_from_u16(code: u16) -> (status: Result<StatusCode, InvalidStatusCode>)
    ensures
        status is Ok <==> 100 <= code <= 999,
        status matches Ok(s) ==> s == status_with_number(code),
{
    StatusCode::from_u16(code)
}

/// The status code with the given number.
fn status(code: u16) -> (status: StatusCode)
    requires
        100 <= code <= 999,
    ensures
        status == status_with_number(code),
{
    match status_from_u16(code) {
        Ok(status) => status,
        Err(_) => unreached(),
    }
}

/// The request went through.
pub const HTTP_OK: u16 = 200;

/// An account was made.
pub const HTTP_CREATED: u16 = 201;

/// A deposit was booked.
pub const HTTP_ACCEPTED: u16 = 202;

/// The user is not who they say, or is there already.
pub const HTTP_UNAUTHORIZED: u16 = 401;

/// The books gave no snapshot.
pub const HTTP_NOT_FOUND: u16 = 404;

/// The user of a book request is unknown.
pub const HTTP_NOT_ACCEPTABLE: u16 = 406;

/// An order was refused.
pub const HTTP_EXPECTATION_FAILED: u16 = 417;

/// Something went wrong inside the venue.
pub const HTTP_INTERNAL_SERVER_ERROR: u16 = 500;

/// The answer to a signup or a signin.
#[derive(Debug)]
pub struct AuthResponse {
    pub message: String,
    pub status: StatusCode,
}

impl AuthResponse {
    /// An answer with status `201`.
    pub fn created(msg: String) -> (response: Self)
        ensures
            response.message@ == msg@,
            response.status == status_with_number(HTTP_CREATED),
    {
        Self { message: msg, status: status(HTTP_CREATED) }
    }

    /// An answer with status `200`.
    pub fn ok(msg: String) -> (response: Self)
        ensures
            response.message@ == msg@,
            response.status == status_with_number(HTTP_OK),
    {
        Self { message: msg, status: status(HTTP_OK) }
    }

    /// An answer with status `401`.
    pub fn unauthorised(msg: String) -> (response: Self)
        ensures
            response.message@ == msg@,
            response.status == status_with_number(HTTP_UNAUTHORIZED),
    {
        Self { message: msg, status: status(HTTP_UNAUTHORIZED) }
    }

    /// An answer with status `500`.
    pub fn internal_server_error(msg: String) -> (response: Self)
        ensures
            response.message@ == msg@,
            response.status == status_with_number(HTTP_INTERNAL_SERVER_ERROR),
    {
        Self { message: msg, status: status(HTTP_INTERNAL_SERVER_ERROR) }
    }

    /// The answer to a signup: `201` for a new account, `401` for a user that
    /// is already there.
    pub fn for_signup(outcome: SignupOutcome) -> (response: Self)
        ensures
            match outcome {
                SignupOutcome::Created => response.status == status_with_number(HTTP_CREATED) && response.message@
                    == "User Created Successfully"@,
                SignupOutcome::AlreadyExists => response.status == status_with_number(HTTP_UNAUTHORIZED)
                    && response.message@ == "User already exists"@,
            },
    {
        match outcome {
            SignupOutcome::Created => Self::created("User Created Successfully".to_owned()),
            SignupOutcome::AlreadyExists => Self::unauthorised("User already exists".to_owned()),
        }
    }

    /// The answer to a signin: `200` when the password is right, `401` when
    /// it is wrong or the user is unknown.
    pub fn for_signin(outcome: SigninOutcome) -> (response: Self)
        ensures
            match outcome {
                SigninOutcome::Authenticated => response.status == status_with_number(HTTP_OK) && response.message@
                    == "User Authenticated"@,
                SigninOutcome::WrongPassword => response.status == status_with_number(HTTP_UNAUTHORIZED)
                    && response.message@ == "Incorrect Password"@,
                SigninOutcome::NotFound => response.status == status_with_number(HTTP_UNAUTHORIZED)
                    && response.message@ == "Kindly SignUp!"@,
            },
    {
        match outcome {
            SigninOutcome::Authenticated => Self::ok("User Authenticated".to_owned()),
            SigninOutcome::WrongPassword => Self::unauthorised("Incorrect Password".to_owned()),
            SigninOutcome::NotFound => Self::unauthorised("Kindly SignUp!".to_owned()),
        }
    }
}

/// The answer to a deposit.
#[derive(Debug)]
pub struct OnRampResponse {
    pub message: String,
    pub new_balance: u64,
    pub new_holdings: u64,
    pub status: StatusCode,
}

impl OnRampResponse {
    /// An answer with status `202` and the new totals.
    pub fn ok(msg: String, new_balance: u64, new_holdings: u64) -> (response: Self)
        ensures
            response.message@ == msg@,
            response.new_balance == new_balance,
            response.new_holdings == new_holdings,
            response.status == status_with_number(HTTP_ACCEPTED),
    {
        Self { message: msg, new_balance, new_holdings, status: status(HTTP_ACCEPTED) }
    }

    /// An answer with status `500`.
    pub fn err(msg: String, new_balance: u64, new_holdings: u64) -> (response: Self)
        ensures
            response.message@ == msg@,
            response.new_balance == new_balance,
            response.new_holdings == new_holdings,
            response.status == status_with_number(HTTP_INTERNAL_SERVER_ERROR),
    {
        Self { message: msg, new_balance, new_holdings, status: status(HTTP_INTERNAL_SERVER_ERROR) }
    }

    /// The answer to a deposit: `202` with the new totals when it was booked,
    /// `500` with zero totals when it was not.
    pub fn for_deposit(outcome: DepositOutcome) -> (response: Self)
        ensures
            match outcome {
                DepositOutcome::Credited { balance, holdings } => {
                    &&& response.status == status_with_number(HTTP_ACCEPTED)
                    &&& response.new_balance == balance
                    &&& response.new_holdings == holdings
                    &&& response.message@ == "Successfull! Deposit booked"@
                },
                DepositOutcome::NotFound => {
                    &&& response.status == status_with_number(HTTP_INTERNAL_SERVER_ERROR)
                    &&& response.new_balance == 0
                    &&& response.new_holdings == 0
                    &&& response.message@ == "User not found!"@
                },
                DepositOutcome::Overflow => {
                    &&& response.status == status_with_number(HTTP_INTERNAL_SERVER_ERROR)
                    &&& response.new_balance == 0
                    &&& response.new_holdings == 0
                    &&& response.message@ == "Deposit exceeds what an account can hold"@
                },
            },
    {
        match outcome {
            DepositOutcome::Credited { balance, holdings } => Self::ok(
                "Successfull! Deposit booked".to_owned(),
                balance,
                holdings,
            ),
            DepositOutcome::NotFound => Self::err("User not found!".to_owned(), 0, 0),
            DepositOutcome::Overflow => Self::err(
                "Deposit exceeds what an account can hold".to_owned(),
                0,
                0,
            ),
        }
    }
}

/// A deposit as it comes in over HTTP.
#[derive(Debug)]
pub struct OnRampHttpRequest {
    pub user_email: String,
    pub balance: u64,
    pub holding: u64,
}

impl OnRampHttpRequest {
    /// The ledger command that books the deposit.
    pub fn into_command(self) -> (command: LedgerCommand)
        ensures
            command@ == (LedgerCommandView::Deposit {
                email: self.user_email@,
                delta_balance: self.balance,
                delta_holdings: self.holding,
            }),
    {
        LedgerCommand::Deposit {
            email: self.user_email,
            delta_balance: self.balance,
            delta_holdings: self.holding,
        }
    }
}

/// The order part of an order request.
#[derive(Clone, Copy, Debug, PartialEq, Eq, Structural)]
pub struct OrderTicket {
    pub qty: u64,
    pub price: u64,
    pub side: Side,
}

/// A limit order as it comes in over HTTP.
#[derive(Debug)]
pub struct CreateMarketOrderRequest {
    pub market_id: u64,
    pub user_email: String,
    pub order: OrderTicket,
}

impl CreateMarketOrderRequest {
    /// The book command that places the order.
    pub fn into_command(self) -> (command: OrderbookCommand)
        ensures
            command@ == (OrderbookCommandView::NewLimitOrder {
                market_id: self.market_id,
                user_id: self.user_email@,
                side: self.order.side,
                qty: self.order.qty,
                price: self.order.price,
            }),
    {
        OrderbookCommand::NewLimitOrder {
            market_id: self.market_id,
            user_id: self.user_email,
            side: self.order.side,
            qty: self.order.qty,
            price: self.order.price,
        }
    }
}

/// The answer to an order request.
#[derive(Debug)]
pub struct CreateMarketOrderResponse {
    pub message: String,
    pub trades: Vec<Trade>,
    pub status: StatusCode,
}

impl CreateMarketOrderResponse {
    /// The answer to an order: `200` with its trades when it went through,
    /// `500` for an internal error, and `417` with the name of the status for
    /// every other refusal.
    pub fn from_book(response: OrderbookResponse) -> (answer: Self)
        ensures
            match response.status {
                Status::Success => {
                    &&& answer.status == status_with_number(HTTP_OK)
                    &&& answer.message@ == "Market Order Created"@
                    &&& trade_views(answer.trades@) == response@.fills
                },
                Status::InternalError => {
                    &&& answer.status == status_with_number(HTTP_INTERNAL_SERVER_ERROR)
                    &&& answer.message@ == "Error Creating Market Order"@
                    &&& answer.trades@.len() == 0
                },
                refusal => {
                    &&& answer.status == status_with_number(HTTP_EXPECTATION_FAILED)
                    &&& answer.message@ == refusal.label()
                    &&& answer.trades@.len() == 0
                },
            },
    {
        match response.status {
            Status::Success => Self {
                message: "Market Order Created".to_owned(),
                trades: response.fills,
                status: status(HTTP_OK),
            },
            Status::InternalError => Self {
                message: "Error Creating Market Order".to_owned(),
                trades: Vec::new(),
                status: status(HTTP_INTERNAL_SERVER_ERROR),
            },
            refusal => Self {
                message: refusal.name(),
                trades: Vec::new(),
                status: status(HTTP_EXPECTATION_FAILED),
            },
        }
    }
}

/// A request for the book of a market as it comes in over HTTP.
#[derive(Debug)]
pub struct GetOrderBookRequest {
    pub user_email: String,
    pub market_id: u64,
}

/// The answer to a request for the book.
#[derive(Debug)]
pub struct GetOrderBookResponse {
    pub message: String,
    pub bids: Option<Vec<DepthLevel>>,
    pub asks: Option<Vec<DepthLevel>>,
    pub status: StatusCode,
}

/// What a request for the book does once the ledger has said whether its
/// user is known.
#[derive(Debug)]
pub enum BookLookup {
    /// Ask the books.
    Ask(OrderbookCommand),
    /// Answer at once.
    Answer(GetOrderBookResponse),
}

impl GetOrderBookRequest {
    /// The ledger command that checks the user of the request.
    pub fn user_check(&self) -> (command: LedgerCommand)
        ensures
            command@ == (LedgerCommandView::CheckExists { email: self.user_email@ }),
    {
        LedgerCommand::CheckExists { email: self.user_email.clone() }
    }

    /// The step after the user check: a known user's request goes on to the
    /// books; an unknown user is answered `406`, and a reply that does not
    /// answer the check `500`.
    pub fn after_user_check(self, reply: LedgerReply) -> (next: BookLookup)
        ensures
            match reply {
                LedgerReply::Exists(true) => next matches BookLookup::Ask(command) && command@
                    == (OrderbookCommandView::GetBook { market_id: self.market_id }),
                LedgerReply::Exists(false) => next matches BookLookup::Answer(answer)
                    && answer.status == status_with_number(HTTP_NOT_ACCEPTABLE) && answer.message@
                    == "User does not exist"@ && answer.bids is None && answer.asks is None,
                _ => next matches BookLookup::Answer(answer) && answer.status
                    == status_with_number(HTTP_INTERNAL_SERVER_ERROR) && answer.message@ == "Internal server Error"@
                    && answer.bids is None && answer.asks is None,
            },
    {
        match reply {
            LedgerReply::Exists(true) => BookLookup::Ask(
                OrderbookCommand::GetBook { market_id: self.market_id },
            ),
            LedgerReply::Exists(false) => BookLookup::Answer(
                GetOrderBookResponse::failed(
                    "User does not exist".to_owned(),
                    status(HTTP_NOT_ACCEPTABLE),
                ),
            ),
            _ => BookLookup::Answer(
                GetOrderBookResponse::failed(
                    "Internal server Error".to_owned(),
                    status(HTTP_INTERNAL_SERVER_ERROR),
                ),
            ),
        }
    }
}

impl GetOrderBookResponse {
    /// An answer without a book.
    pub fn failed(msg: String, status: StatusCode) -> (answer: Self)
        ensures
            answer.message@ == msg@,
            answer.status == status,
            answer.bids is None,
            answer.asks is None,
    {
        Self { message: msg, bids: None, asks: None, status }
    }

    /// The answer to a request for the book: `200` with the depth of both
    /// sides when the books answered it, `404` without them when they did not.
    pub fn from_book(response: OrderbookResponse) -> (answer: Self)
        ensures
            match response.status {
                Status::Success => {
                    &&& answer.status == status_with_number(HTTP_OK)
                    &&& answer.message@ == "Succesfully fetched the Order Book"@
                    &&& depth_view(answer.bids) == response@.bids
                    &&& depth_view(answer.asks) == response@.asks
                },
                _ => {
                    &&& answer.status == status_with_number(HTTP_NOT_FOUND)
                    &&& answer.message@ == "Error fetching Order Book"@
                    &&& answer.bids is None
                    &&& answer.asks is None
                },
            },
    {
        match response.status {
            Status::Success => Self {
                message: "Succesfully fetched the Order Book".to_owned(),
                bids: response.bids,
                asks: response.asks,
                status: status(HTTP_OK),
            },
            _ => Self::failed("Error fetching Order Book".to_owned(), status(HTTP_NOT_FOUND)),
        }
    }
}

} // verus!
