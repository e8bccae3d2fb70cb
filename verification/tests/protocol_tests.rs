use exchange_core::book::MarketBook;
use exchange_core::domain::{DepthLevel, Side, Status, Trade};
use exchange_core::ledger::{
    Balances, DepositOutcome, Ledger, LedgerCommand, LedgerReply, SignupOutcome,
};
use exchange_core::markets::Markets;
use exchange_core::placement::drive;
use exchange_core::protocol::{copy_trades, BookStep, OrderbookCommand, OrderbookResponse};

fn s(text: &str) -> String {
    text.to_string()
}

fn ledger_with(users: &[(&str, u64, u64)]) -> Ledger {
    let mut ledger = Ledger::new();
    for (email, balance, holdings) in users {
        assert_eq!(ledger.signup(s(email), s("secret")), SignupOutcome::Created);
        assert_eq!(
            ledger.deposit(&s(email), *balance, *holdings),
            DepositOutcome::Credited { balance: *balance, holdings: *holdings }
        );
    }
    ledger
}

fn amounts(ledger: &Ledger, email: &str) -> Balances {
    ledger.balances(&s(email)).unwrap()
}

fn level(price: u64, quantity: u128) -> DepthLevel {
    DepthLevel { price, quantity }
}

fn request(step: BookStep) -> LedgerCommand {
    match step {
        BookStep::Request(command) => command,
        BookStep::Done(response) => panic!("answered too early: {:?}", response),
    }
}

fn answer(step: BookStep) -> OrderbookResponse {
    match step {
        BookStep::Done(response) => response,
        BookStep::Request(command) => panic!("asked for more: {:?}", command),
    }
}

fn limit_order(market_id: u64, user: &str, side: Side, qty: u64, price: u64) -> OrderbookCommand {
    OrderbookCommand::NewLimitOrder { market_id, user_id: s(user), side, qty, price }
}

fn market_order(market_id: u64, user: &str, side: Side, qty: u64) -> OrderbookCommand {
    OrderbookCommand::NewMarketOrder { market_id, user_id: s(user), side, qty }
}

fn book_with_asks(ledger: &mut Ledger, asks: &[(&str, u64, u64)]) -> MarketBook {
    let mut book = MarketBook::new();
    for (owner, qty, price) in asks {
        let first = book.begin_limit_order(1, s(owner), Side::Ask, *qty, *price);
        assert_eq!(drive(&mut book, ledger, first).status, Status::Success);
    }
    book
}

#[test]
fn limit_order_first_asks_for_its_escrow() {
    let mut book = MarketBook::new();
    let step = book.begin_limit_order(1, s("b"), Side::Bid, 10, 50);
    match request(step) {
        LedgerCommand::Reserve { email, side, qty, price } => {
            assert_eq!((email, side, qty, price), (s("b"), Side::Bid, 10, Some(50)));
        }
        other => panic!("unexpected request {:?}", other),
    }
    assert!(!book.is_idle());
}

#[test]
fn refused_escrow_ends_the_order_with_the_ledgers_status() {
    for status in [Status::InsufficientFunds, Status::InsufficientHoldings, Status::UserNotFound] {
        let mut book = MarketBook::new();
        request(book.begin_limit_order(1, s("b"), Side::Bid, 10, 50));
        let response = answer(book.resume(LedgerReply::Reserved(status)));
        assert_eq!(response.status, status);
        assert!(response.fills.is_empty());
        assert_eq!(response.remaining_qty, 0);
        assert!(book.is_idle());
        assert_eq!(book.resting_count(Side::Bid), 0);
    }
}

#[test]
fn order_without_a_match_rests_right_after_its_escrow() {
    let mut book = MarketBook::new();
    request(book.begin_limit_order(1, s("b"), Side::Bid, 10, 50));
    let response = answer(book.resume(LedgerReply::Reserved(Status::Success)));
    assert_eq!((response.status, response.remaining_qty), (Status::Success, 10));
    assert!(response.fills.is_empty());
    assert!(book.is_idle());
    assert_eq!(book.best_bid_price(), Some(50));
}

#[test]
fn book_changes_only_after_the_trades_are_settled() {
    let mut ledger = ledger_with(&[("s", 0, 10)]);
    let mut book = book_with_asks(&mut ledger, &[("s", 10, 50)]);
    request(book.begin_limit_order(1, s("b"), Side::Bid, 4, 50));
    let settle = request(book.resume(LedgerReply::Reserved(Status::Success)));
    match settle {
        LedgerCommand::Settle { trades } => {
            assert_eq!(trades.len(), 1);
            assert_eq!(
                (trades[0].buyer.as_str(), trades[0].seller.as_str(), trades[0].qty, trades[0].price),
                ("b", "s", 4, 50)
            );
        }
        other => panic!("unexpected request {:?}", other),
    }
    assert_eq!(book.get_book().asks.unwrap(), vec![level(50, 10)]);
    let response = answer(book.resume(LedgerReply::Settled(Status::Success)));
    assert_eq!((response.status, response.fills.len(), response.remaining_qty), (Status::Success, 1, 0));
    assert_eq!(book.get_book().asks.unwrap(), vec![level(50, 6)]);
    assert!(book.is_idle());
}

#[test]
fn failed_settlement_hands_the_escrow_back_and_leaves_the_book() {
    let mut ledger = ledger_with(&[("s", 0, 10)]);
    let mut book = book_with_asks(&mut ledger, &[("s", 10, 50)]);
    request(book.begin_limit_order(1, s("b"), Side::Bid, 4, 55));
    request(book.resume(LedgerReply::Reserved(Status::Success)));
    let unwind = request(book.resume(LedgerReply::Settled(Status::InternalError)));
    match unwind {
        LedgerCommand::ReleaseReservation { email, side, qty, price } => {
            assert_eq!((email, side, qty, price), (s("b"), Side::Bid, 4, Some(55)));
        }
        other => panic!("unexpected request {:?}", other),
    }
    let response = answer(book.resume(LedgerReply::Released(Status::Success)));
    assert_eq!(response.status, Status::InternalError);
    assert!(response.fills.is_empty());
    assert_eq!(book.get_book().asks.unwrap(), vec![level(50, 10)]);
    assert_eq!(book.resting_count(Side::Bid), 0);
    assert!(book.is_idle());
}

#[test]
fn market_order_hands_back_the_escrow_of_what_it_cannot_match() {
    let mut ledger = ledger_with(&[("s", 0, 10)]);
    let mut book = book_with_asks(&mut ledger, &[("s", 4, 50)]);
    match request(book.begin_market_order(1, s("b"), Side::Bid, 10)) {
        LedgerCommand::Reserve { email, side, qty, price } => {
            assert_eq!((email, side, qty, price), (s("b"), Side::Bid, 10, Some(50)));
        }
        other => panic!("unexpected request {:?}", other),
    }
    match request(book.resume(LedgerReply::Reserved(Status::Success))) {
        LedgerCommand::ReleaseReservation { email, side, qty, price } => {
            assert_eq!((email, side, qty, price), (s("b"), Side::Bid, 6, Some(50)));
        }
        other => panic!("unexpected request {:?}", other),
    }
    match request(book.resume(LedgerReply::Released(Status::Success))) {
        LedgerCommand::Settle { trades } => assert_eq!(trades.len(), 1),
        other => panic!("unexpected request {:?}", other),
    }
    match request(book.resume(LedgerReply::Settled(Status::InternalError))) {
        LedgerCommand::ReleaseReservation { email, side, qty, price } => {
            assert_eq!((email, side, qty, price), (s("b"), Side::Bid, 4, Some(50)));
        }
        other => panic!("unexpected request {:?}", other),
    }
    assert_eq!(
        answer(book.resume(LedgerReply::Released(Status::InternalError))).status,
        Status::InternalError
    );
    assert_eq!(book.get_book().asks.unwrap(), vec![level(50, 4)]);
}

#[test]
fn reply_that_does_not_answer_the_request_is_an_internal_error() {
    let mut book = MarketBook::new();
    assert_eq!(
        answer(book.resume(LedgerReply::Reserved(Status::Success))).status,
        Status::InternalError
    );
    request(book.begin_limit_order(1, s("b"), Side::Bid, 10, 50));
    assert_eq!(answer(book.resume(LedgerReply::Exists(true))).status, Status::InternalError);
    assert!(book.is_idle());
    assert_eq!(book.resting_count(Side::Bid), 0);
}

#[test]
fn busy_book_takes_no_second_order() {
    let mut book = MarketBook::new();
    request(book.begin_limit_order(1, s("b"), Side::Bid, 10, 50));
    assert_eq!(
        answer(book.begin_limit_order(1, s("c"), Side::Bid, 1, 1)).status,
        Status::InternalError
    );
    assert_eq!(
        answer(book.begin_market_order(1, s("c"), Side::Bid, 1)).status,
        Status::InternalError
    );
    assert_eq!(answer(book.begin_limit_order(1, s("c"), Side::Bid, 0, 1)).status, Status::InvalidOrder);
    let response = answer(book.resume(LedgerReply::Reserved(Status::Success)));
    assert_eq!((response.status, response.remaining_qty), (Status::Success, 10));
    assert_eq!(book.get_book().bids.unwrap(), vec![level(50, 10)]);
}

#[test]
fn drive_answers_a_step_that_is_already_done() {
    let mut ledger = Ledger::new();
    let mut book = MarketBook::new();
    let response =
        drive(&mut book, &mut ledger, BookStep::Done(OrderbookResponse::bare(Status::NoLiquidity)));
    assert_eq!(response.status, Status::NoLiquidity);
}

#[test]
fn responses_are_built_as_named() {
    let bare = OrderbookResponse::bare(Status::MarketNotFound);
    assert_eq!((bare.status, bare.fills.len(), bare.remaining_qty), (Status::MarketNotFound, 0, 0));
    assert!(bare.bids.is_none() && bare.asks.is_none());
    let trade = Trade { buyer: s("b"), seller: s("a"), qty: 1, price: 2, market_id: 3, sequence: 4 };
    let copy = copy_trades(&vec![trade.duplicate(), trade]);
    assert_eq!(copy.len(), 2);
    assert_eq!((copy[1].buyer.as_str(), copy[1].seller.as_str()), ("b", "a"));
    assert_eq!((copy[1].qty, copy[1].price, copy[1].market_id, copy[1].sequence), (1, 2, 3, 4));
    let filled = OrderbookResponse::filled(copy, 9);
    assert_eq!((filled.status, filled.fills.len(), filled.remaining_qty), (Status::Success, 2, 9));
    let snapshot = OrderbookResponse::snapshot(vec![level(1, 2)], vec![]);
    assert_eq!(snapshot.status, Status::Success);
    assert_eq!(snapshot.bids.unwrap(), vec![level(1, 2)]);
    assert_eq!(snapshot.asks.unwrap(), vec![]);
    assert_eq!(limit_order(7, "a", Side::Bid, 1, 1).market_id(), 7);
    assert_eq!(market_order(8, "a", Side::Bid, 1).market_id(), 8);
    assert_eq!(OrderbookCommand::GetBook { market_id: 9 }.market_id(), 9);
}

#[test]
fn command_to_a_market_that_is_not_there_is_refused() {
    let mut ledger = ledger_with(&[("a", 100, 100)]);
    let mut markets = Markets::new();
    assert!(!markets.has_market(1));
    let response = markets.submit(&mut ledger, limit_order(1, "a", Side::Ask, 1, 1));
    assert_eq!(response.status, Status::MarketNotFound);
    assert_eq!(
        markets.submit(&mut ledger, market_order(1, "a", Side::Ask, 1)).status,
        Status::MarketNotFound
    );
    assert_eq!(
        markets.submit(&mut ledger, OrderbookCommand::GetBook { market_id: 1 }).status,
        Status::MarketNotFound
    );
    assert_eq!(answer(markets.begin(limit_order(1, "a", Side::Ask, 1, 1))).status, Status::MarketNotFound);
    assert_eq!(
        answer(markets.resume(1, LedgerReply::Reserved(Status::Success))).status,
        Status::MarketNotFound
    );
    assert_eq!(amounts(&ledger, "a").reserved_holdings, 0);
}

#[test]
fn markets_are_opened_once_and_kept_apart() {
    let mut ledger = ledger_with(&[("a", 1000, 100), ("b", 1000, 0)]);
    let mut markets = Markets::new();
    assert!(markets.open_market(1));
    assert!(markets.open_market(2));
    assert!(!markets.open_market(1));
    assert!(markets.has_market(2));
    assert_eq!(markets.submit(&mut ledger, limit_order(1, "a", Side::Ask, 5, 10)).status, Status::Success);
    assert!(!markets.open_market(1));
    assert_eq!(
        markets.submit(&mut ledger, market_order(2, "b", Side::Bid, 5)).status,
        Status::NoLiquidity
    );
    let response = markets.submit(&mut ledger, market_order(1, "b", Side::Bid, 5));
    assert_eq!(response.status, Status::Success);
    assert_eq!(response.fills[0].market_id, 1);
    let first = markets.submit(&mut ledger, OrderbookCommand::GetBook { market_id: 1 });
    assert_eq!((first.bids.unwrap(), first.asks.unwrap()), (vec![], vec![]));
}

#[test]
fn markets_work_a_command_off_step_by_step() {
    let mut ledger = ledger_with(&[("a", 0, 10), ("b", 1000, 0)]);
    let mut markets = Markets::new();
    assert!(markets.open_market(1));
    let mut step = markets.begin(limit_order(1, "a", Side::Ask, 10, 50));
    let mut requests = 0;
    let response = loop {
        match step {
            BookStep::Done(response) => break response,
            BookStep::Request(command) => {
                requests += 1;
                step = markets.resume(1, ledger.apply(command));
            }
        }
    };
    assert_eq!((response.status, response.remaining_qty, requests), (Status::Success, 10, 1));
    let mut step = markets.begin(limit_order(1, "b", Side::Bid, 10, 50));
    let mut requests = 0;
    let response = loop {
        match step {
            BookStep::Done(response) => break response,
            BookStep::Request(command) => {
                requests += 1;
                step = markets.resume(1, ledger.apply(command));
            }
        }
    };
    assert_eq!((response.status, response.fills.len(), requests), (Status::Success, 1, 2));
    assert_eq!(amounts(&ledger, "a").balance, 500);
    assert_eq!(amounts(&ledger, "b").holdings, 10);
    let snapshot = answer(markets.begin(OrderbookCommand::GetBook { market_id: 1 }));
    assert_eq!((snapshot.bids.unwrap(), snapshot.asks.unwrap()), (vec![], vec![]));
}

#[test]
fn scenario_resting_ask_meets_bid() {
    let mut ledger = Ledger::new();
    let mut markets = Markets::new();
    assert!(markets.open_market(1));
    assert_eq!(ledger.signup(s("A"), s("pa")), SignupOutcome::Created);
    assert_eq!(ledger.signup(s("B"), s("pb")), SignupOutcome::Created);
    assert_eq!(
        ledger.deposit(&s("A"), 1000, 10),
        DepositOutcome::Credited { balance: 1000, holdings: 10 }
    );
    let placed = markets.submit(&mut ledger, limit_order(1, "A", Side::Ask, 10, 50));
    assert_eq!((placed.status, placed.fills.len(), placed.remaining_qty), (Status::Success, 0, 10));
    let shown = markets.submit(&mut ledger, OrderbookCommand::GetBook { market_id: 1 });
    assert_eq!(shown.bids.unwrap(), vec![]);
    assert_eq!(shown.asks.unwrap(), vec![level(50, 10)]);

    assert_eq!(
        ledger.deposit(&s("B"), 1000, 0),
        DepositOutcome::Credited { balance: 1000, holdings: 0 }
    );
    let crossed = markets.submit(&mut ledger, limit_order(1, "B", Side::Bid, 10, 50));
    assert_eq!((crossed.status, crossed.remaining_qty), (Status::Success, 0));
    assert_eq!(crossed.fills.len(), 1);
    assert_eq!((crossed.fills[0].qty, crossed.fills[0].price), (10, 50));
    assert_eq!((crossed.fills[0].buyer.as_str(), crossed.fills[0].seller.as_str()), ("B", "A"));
    assert_eq!(amounts(&ledger, "A").balance, 1500);
    assert_eq!(amounts(&ledger, "A").holdings, 0);
    assert_eq!(amounts(&ledger, "B").holdings, 10);
    assert_eq!(amounts(&ledger, "B").balance, 500);
    let shown = markets.submit(&mut ledger, OrderbookCommand::GetBook { market_id: 1 });
    assert_eq!((shown.bids.unwrap(), shown.asks.unwrap()), (vec![], vec![]));
}

#[test]
fn scenario_insufficient_funds() {
    let mut ledger = ledger_with(&[("C", 10, 0)]);
    let mut markets = Markets::new();
    assert!(markets.open_market(1));
    let refused = markets.submit(&mut ledger, limit_order(1, "C", Side::Bid, 5, 5));
    assert_eq!(refused.status, Status::InsufficientFunds);
    assert!(refused.fills.is_empty());
    let shown = markets.submit(&mut ledger, OrderbookCommand::GetBook { market_id: 1 });
    assert_eq!((shown.bids.unwrap(), shown.asks.unwrap()), (vec![], vec![]));
    assert_eq!(
        amounts(&ledger, "C"),
        Balances { balance: 10, holdings: 0, reserved_balance: 0, reserved_holdings: 0 }
    );
}
