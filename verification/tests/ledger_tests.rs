use exchange_core::domain::{Side, Status, Trade};
use exchange_core::ledger::{
    Balances, DepositOutcome, Ledger, LedgerCommand, LedgerReply, SigninOutcome, SignupOutcome,
};

fn s(text: &str) -> String {
    text.to_string()
}

fn ledger_with(users: &[(&str, u64, u64)]) -> Ledger {
    let mut ledger = Ledger::new();
    for (email, balance, holdings) in users {
        assert_eq!(ledger.signup(s(email), s("secret")), SignupOutcome::Created);
        assert_eq!(
            ledger.deposit(&s(email), *balance, *holdings),
            DepositOutcome::Credited { balance: *balance, holdings: *holdings }
        );
    }
    ledger
}

fn amounts(ledger: &Ledger, email: &str) -> Balances {
    ledger.balances(&s(email)).unwrap()
}

fn trade(buyer: &str, seller: &str, qty: u64, price: u64) -> Trade {
    Trade { buyer: s(buyer), seller: s(seller), qty, price, market_id: 1, sequence: 1 }
}

fn escrow_in_bounds(ledger: &Ledger, email: &str) -> bool {
    let a = amounts(ledger, email);
    a.balance >= a.reserved_balance && a.holdings >= a.reserved_holdings
}

#[test]
fn signup_creates_an_empty_account() {
    let mut ledger = Ledger::new();
    assert_eq!(ledger.signup(s("ann"), s("pw")), SignupOutcome::Created);
    assert_eq!(
        amounts(&ledger, "ann"),
        Balances { balance: 0, holdings: 0, reserved_balance: 0, reserved_holdings: 0 }
    );
}

#[test]
fn signup_twice_is_refused_and_keeps_the_account() {
    let mut ledger = ledger_with(&[("ann", 70, 3)]);
    assert_eq!(ledger.signup(s("ann"), s("other")), SignupOutcome::AlreadyExists);
    assert_eq!(amounts(&ledger, "ann").balance, 70);
    assert_eq!(ledger.signin(&s("ann"), &s("secret")), SigninOutcome::Authenticated);
}

#[test]
fn signin_tells_the_three_outcomes_apart() {
    let ledger = ledger_with(&[("ann", 0, 0)]);
    assert_eq!(ledger.signin(&s("ann"), &s("secret")), SigninOutcome::Authenticated);
    assert_eq!(ledger.signin(&s("ann"), &s("guess")), SigninOutcome::WrongPassword);
    assert_eq!(ledger.signin(&s("bob"), &s("secret")), SigninOutcome::NotFound);
}

#[test]
fn check_exists_knows_only_signed_up_users() {
    let ledger = ledger_with(&[("ann", 0, 0)]);
    assert!(ledger.check_exists(&s("ann")));
    assert!(!ledger.check_exists(&s("an")));
    assert!(ledger.balances(&s("bob")).is_none());
}

#[test]
fn deposit_adds_to_both_totals() {
    let mut ledger = ledger_with(&[("ann", 100, 5)]);
    assert_eq!(
        ledger.deposit(&s("ann"), 23, 4),
        DepositOutcome::Credited { balance: 123, holdings: 9 }
    );
    assert_eq!(amounts(&ledger, "ann").balance, 123);
    assert_eq!(amounts(&ledger, "ann").holdings, 9);
}

#[test]
fn deposit_for_an_unknown_user_is_not_found() {
    let mut ledger = Ledger::new();
    assert_eq!(ledger.deposit(&s("ann"), 1, 1), DepositOutcome::NotFound);
}

#[test]
fn deposit_that_would_overflow_books_nothing() {
    let mut ledger = ledger_with(&[("ann", u64::MAX - 1, 5)]);
    assert_eq!(ledger.deposit(&s("ann"), 2, 1), DepositOutcome::Overflow);
    assert_eq!(amounts(&ledger, "ann").balance, u64::MAX - 1);
    assert_eq!(amounts(&ledger, "ann").holdings, 5);
    assert_eq!(ledger.deposit(&s("ann"), 0, u64::MAX), DepositOutcome::Overflow);
    assert_eq!(
        ledger.deposit(&s("ann"), 1, 0),
        DepositOutcome::Credited { balance: u64::MAX, holdings: 5 }
    );
}

#[test]
fn reserve_for_a_bid_sets_qty_times_price_aside() {
    let mut ledger = ledger_with(&[("ann", 100, 0)]);
    assert_eq!(ledger.reserve(&s("ann"), Side::Bid, 7, Some(9)), Status::Success);
    let a = amounts(&ledger, "ann");
    assert_eq!(a.reserved_balance, 63);
    assert_eq!(a.balance, 100);
    assert_eq!(a.reserved_holdings, 0);
}

#[test]
fn reserve_for_an_ask_sets_the_quantity_aside() {
    let mut ledger = ledger_with(&[("ann", 0, 10)]);
    assert_eq!(ledger.reserve(&s("ann"), Side::Ask, 4, Some(1000)), Status::Success);
    assert_eq!(ledger.reserve(&s("ann"), Side::Ask, 6, None), Status::Success);
    let a = amounts(&ledger, "ann");
    assert_eq!(a.reserved_holdings, 10);
    assert_eq!(a.reserved_balance, 0);
}

#[test]
fn reserve_up_to_the_last_unit_and_not_beyond() {
    let mut ledger = ledger_with(&[("ann", 100, 10)]);
    assert_eq!(ledger.reserve(&s("ann"), Side::Bid, 101, Some(1)), Status::InsufficientFunds);
    assert_eq!(ledger.reserve(&s("ann"), Side::Bid, 100, Some(1)), Status::Success);
    assert_eq!(ledger.reserve(&s("ann"), Side::Bid, 1, Some(1)), Status::InsufficientFunds);
    assert_eq!(ledger.reserve(&s("ann"), Side::Ask, 11, None), Status::InsufficientHoldings);
    assert_eq!(ledger.reserve(&s("ann"), Side::Ask, 10, None), Status::Success);
    assert_eq!(ledger.reserve(&s("ann"), Side::Ask, 1, None), Status::InsufficientHoldings);
}

#[test]
fn two_orders_cannot_jointly_overdraw() {
    let mut ledger = ledger_with(&[("ann", 100, 0)]);
    assert_eq!(ledger.reserve(&s("ann"), Side::Bid, 6, Some(10)), Status::Success);
    assert_eq!(ledger.reserve(&s("ann"), Side::Bid, 5, Some(10)), Status::InsufficientFunds);
    assert_eq!(amounts(&ledger, "ann").reserved_balance, 60);
}

#[test]
fn reserve_whose_cost_exceeds_a_machine_word_is_insufficient_funds() {
    let mut ledger = ledger_with(&[("ann", u64::MAX, 0)]);
    assert_eq!(
        ledger.reserve(&s("ann"), Side::Bid, u64::MAX, Some(2)),
        Status::InsufficientFunds
    );
    assert_eq!(amounts(&ledger, "ann").reserved_balance, 0);
}

#[test]
fn reserve_refuses_a_bid_without_price_and_an_unknown_user() {
    let mut ledger = ledger_with(&[("ann", 100, 0)]);
    assert_eq!(ledger.reserve(&s("ann"), Side::Bid, 1, None), Status::InvalidOrder);
    assert_eq!(ledger.reserve(&s("bob"), Side::Bid, 1, None), Status::InvalidOrder);
    assert_eq!(ledger.reserve(&s("bob"), Side::Bid, 1, Some(1)), Status::UserNotFound);
    assert_eq!(ledger.reserve(&s("bob"), Side::Ask, 1, None), Status::UserNotFound);
}

#[test]
fn release_is_the_inverse_of_reserve() {
    let mut ledger = ledger_with(&[("ann", 100, 10)]);
    let before = amounts(&ledger, "ann");
    assert_eq!(ledger.reserve(&s("ann"), Side::Bid, 3, Some(20)), Status::Success);
    assert_eq!(ledger.reserve(&s("ann"), Side::Ask, 4, None), Status::Success);
    assert_eq!(ledger.release_reservation(&s("ann"), Side::Bid, 3, Some(20)), Status::Success);
    assert_eq!(ledger.release_reservation(&s("ann"), Side::Ask, 4, None), Status::Success);
    assert_eq!(amounts(&ledger, "ann"), before);
}

#[test]
fn release_of_more_than_is_reserved_is_a_fault() {
    let mut ledger = ledger_with(&[("ann", 100, 10)]);
    assert_eq!(ledger.reserve(&s("ann"), Side::Bid, 3, Some(20)), Status::Success);
    assert_eq!(
        ledger.release_reservation(&s("ann"), Side::Bid, 61, Some(1)),
        Status::InternalError
    );
    assert_eq!(ledger.release_reservation(&s("ann"), Side::Ask, 1, None), Status::InternalError);
    assert_eq!(
        ledger.release_reservation(&s("ann"), Side::Bid, u64::MAX, Some(u64::MAX)),
        Status::InternalError
    );
    assert_eq!(ledger.release_reservation(&s("ann"), Side::Bid, 1, None), Status::InvalidOrder);
    assert_eq!(ledger.release_reservation(&s("bob"), Side::Ask, 1, None), Status::UserNotFound);
    assert_eq!(amounts(&ledger, "ann").reserved_balance, 60);
}

#[test]
fn settlement_conserves_value() {
    let mut ledger = ledger_with(&[("buyer", 1000, 2), ("seller", 30, 50), ("other", 5, 5)]);
    assert_eq!(ledger.reserve(&s("buyer"), Side::Bid, 10, Some(50)), Status::Success);
    assert_eq!(ledger.reserve(&s("seller"), Side::Ask, 10, None), Status::Success);
    assert!(ledger.settle(&s("buyer"), &s("seller"), 10, 50));
    assert_eq!(
        amounts(&ledger, "buyer"),
        Balances { balance: 500, holdings: 12, reserved_balance: 0, reserved_holdings: 0 }
    );
    assert_eq!(
        amounts(&ledger, "seller"),
        Balances { balance: 530, holdings: 40, reserved_balance: 0, reserved_holdings: 0 }
    );
    assert_eq!(
        amounts(&ledger, "other"),
        Balances { balance: 5, holdings: 5, reserved_balance: 0, reserved_holdings: 0 }
    );
}

#[test]
fn settlement_draws_only_on_escrow() {
    let mut ledger = ledger_with(&[("buyer", 1000, 0), ("seller", 0, 50)]);
    assert!(!ledger.settle(&s("buyer"), &s("seller"), 1, 1));
    assert_eq!(ledger.reserve(&s("buyer"), Side::Bid, 10, Some(50)), Status::Success);
    assert!(!ledger.settle(&s("buyer"), &s("seller"), 10, 50));
    assert_eq!(ledger.reserve(&s("seller"), Side::Ask, 9, None), Status::Success);
    assert!(!ledger.settle(&s("buyer"), &s("seller"), 10, 50));
    assert!(!ledger.settle(&s("buyer"), &s("seller"), 9, 56));
    assert_eq!(amounts(&ledger, "buyer").balance, 1000);
    assert_eq!(amounts(&ledger, "buyer").reserved_balance, 500);
    assert_eq!(amounts(&ledger, "seller").holdings, 50);
    assert_eq!(amounts(&ledger, "seller").reserved_holdings, 9);
    assert!(ledger.settle(&s("buyer"), &s("seller"), 9, 55));
    assert_eq!(amounts(&ledger, "buyer").reserved_balance, 5);
    assert_eq!(amounts(&ledger, "seller").reserved_holdings, 0);
}

#[test]
fn settlement_with_an_unknown_party_or_an_overflow_fails() {
    let mut ledger = ledger_with(&[("buyer", 1000, 0), ("seller", u64::MAX - 10, 50)]);
    assert_eq!(ledger.reserve(&s("buyer"), Side::Bid, 10, Some(50)), Status::Success);
    assert_eq!(ledger.reserve(&s("seller"), Side::Ask, 10, None), Status::Success);
    assert!(!ledger.settle(&s("buyer"), &s("nobody"), 1, 1));
    assert!(!ledger.settle(&s("nobody"), &s("seller"), 1, 1));
    assert!(!ledger.settle(&s("buyer"), &s("seller"), 1, 11));
    assert!(!ledger.settle(&s("buyer"), &s("seller"), u64::MAX, u64::MAX));
    assert!(ledger.settle(&s("buyer"), &s("seller"), 1, 10));
    assert_eq!(amounts(&ledger, "seller").balance, u64::MAX);
}

#[test]
fn settlement_of_a_trade_with_oneself_leaves_the_totals() {
    let mut ledger = ledger_with(&[("ann", 100, 10)]);
    assert_eq!(ledger.reserve(&s("ann"), Side::Bid, 2, Some(30)), Status::Success);
    assert_eq!(ledger.reserve(&s("ann"), Side::Ask, 2, None), Status::Success);
    assert!(ledger.settle(&s("ann"), &s("ann"), 2, 30));
    assert_eq!(
        amounts(&ledger, "ann"),
        Balances { balance: 100, holdings: 10, reserved_balance: 0, reserved_holdings: 0 }
    );
}

#[test]
fn settle_all_applies_every_trade_in_order() {
    let mut ledger = ledger_with(&[("b", 1000, 0), ("s1", 0, 5), ("s2", 0, 5)]);
    assert_eq!(ledger.reserve(&s("b"), Side::Bid, 10, Some(60)), Status::Success);
    assert_eq!(ledger.reserve(&s("s1"), Side::Ask, 5, None), Status::Success);
    assert_eq!(ledger.reserve(&s("s2"), Side::Ask, 5, None), Status::Success);
    let trades = vec![trade("b", "s1", 5, 50), trade("b", "s2", 5, 60)];
    assert!(ledger.settle_all(&trades));
    assert_eq!(amounts(&ledger, "b").balance, 1000 - 250 - 300);
    assert_eq!(amounts(&ledger, "b").holdings, 10);
    assert_eq!(amounts(&ledger, "b").reserved_balance, 50);
    assert_eq!(amounts(&ledger, "s1").balance, 250);
    assert_eq!(amounts(&ledger, "s2").balance, 300);
}

#[test]
fn settle_all_is_all_or_nothing() {
    let mut ledger = ledger_with(&[("b", 1000, 0), ("s1", 0, 5), ("s2", 0, 5)]);
    assert_eq!(ledger.reserve(&s("b"), Side::Bid, 10, Some(50)), Status::Success);
    assert_eq!(ledger.reserve(&s("s1"), Side::Ask, 5, None), Status::Success);
    assert_eq!(ledger.reserve(&s("s2"), Side::Ask, 5, None), Status::Success);
    let trades = vec![trade("b", "s1", 5, 50), trade("b", "s2", 5, 60)];
    assert!(!ledger.settle_all(&trades));
    assert_eq!(
        amounts(&ledger, "b"),
        Balances { balance: 1000, holdings: 0, reserved_balance: 500, reserved_holdings: 0 }
    );
    assert_eq!(
        amounts(&ledger, "s1"),
        Balances { balance: 0, holdings: 5, reserved_balance: 0, reserved_holdings: 5 }
    );
    assert!(ledger.settle_all(&Vec::new()));
}

#[test]
fn escrow_stays_within_funds_through_a_run_of_commands() {
    let mut ledger = ledger_with(&[("ann", 500, 20), ("bob", 300, 8)]);
    let steps = vec![
        LedgerCommand::Reserve { email: s("ann"), side: Side::Bid, qty: 5, price: Some(40) },
        LedgerCommand::Reserve { email: s("bob"), side: Side::Ask, qty: 8, price: None },
        LedgerCommand::Settle { trades: vec![trade("ann", "bob", 3, 40)] },
        LedgerCommand::Reserve { email: s("ann"), side: Side::Bid, qty: 100, price: Some(40) },
        LedgerCommand::ReleaseReservation {
            email: s("ann"),
            side: Side::Bid,
            qty: 2,
            price: Some(40),
        },
        LedgerCommand::Settle { trades: vec![trade("ann", "bob", 1, 40)] },
        LedgerCommand::Reserve { email: s("ann"), side: Side::Ask, qty: 23, price: None },
        LedgerCommand::ReleaseReservation { email: s("bob"), side: Side::Ask, qty: 5, price: None },
        LedgerCommand::ReleaseReservation { email: s("bob"), side: Side::Ask, qty: 1, price: None },
    ];
    let expected = vec![
        LedgerReply::Reserved(Status::Success),
        LedgerReply::Reserved(Status::Success),
        LedgerReply::Settled(Status::Success),
        LedgerReply::Reserved(Status::InsufficientFunds),
        LedgerReply::Released(Status::Success),
        LedgerReply::Settled(Status::InternalError),
        LedgerReply::Reserved(Status::Success),
        LedgerReply::Released(Status::Success),
        LedgerReply::Released(Status::InternalError),
    ];
    for (step, reply) in steps.into_iter().zip(expected) {
        assert_eq!(ledger.apply(step), reply);
        assert!(escrow_in_bounds(&ledger, "ann"));
        assert!(escrow_in_bounds(&ledger, "bob"));
    }
    assert_eq!(
        amounts(&ledger, "ann"),
        Balances { balance: 380, holdings: 23, reserved_balance: 0, reserved_holdings: 23 }
    );
    assert_eq!(
        amounts(&ledger, "bob"),
        Balances { balance: 420, holdings: 5, reserved_balance: 0, reserved_holdings: 0 }
    );
}

#[test]
fn apply_answers_every_kind_of_command() {
    let mut ledger = Ledger::new();
    assert_eq!(
        ledger.apply(LedgerCommand::CheckExists { email: s("ann") }),
        LedgerReply::Exists(false)
    );
    assert_eq!(
        ledger.apply(LedgerCommand::Signup { email: s("ann"), password: s("pw") }),
        LedgerReply::Signup(SignupOutcome::Created)
    );
    assert_eq!(
        ledger.apply(LedgerCommand::Signup { email: s("ann"), password: s("pw") }),
        LedgerReply::Signup(SignupOutcome::AlreadyExists)
    );
    assert_eq!(
        ledger.apply(LedgerCommand::Signin { email: s("ann"), password: s("no") }),
        LedgerReply::Signin(SigninOutcome::WrongPassword)
    );
    assert_eq!(
        ledger.apply(LedgerCommand::CheckExists { email: s("ann") }),
        LedgerReply::Exists(true)
    );
    assert_eq!(
        ledger.apply(LedgerCommand::Deposit {
            email: s("ann"),
            delta_balance: 7,
            delta_holdings: 8
        }),
        LedgerReply::Deposit(DepositOutcome::Credited { balance: 7, holdings: 8 })
    );
    assert_eq!(
        ledger.apply(LedgerCommand::Deposit {
            email: s("bob"),
            delta_balance: 7,
            delta_holdings: 8
        }),
        LedgerReply::Deposit(DepositOutcome::NotFound)
    );
}

#[test]
fn duplicate_is_a_ledger_of_its_own() {
    let mut ledger = ledger_with(&[("ann", 100, 10)]);
    let copy = ledger.duplicate();
    assert_eq!(ledger.reserve(&s("ann"), Side::Bid, 1, Some(1)), Status::Success);
    assert_eq!(amounts(&copy, "ann").reserved_balance, 0);
    assert_eq!(amounts(&ledger, "ann").reserved_balance, 1);
    assert_eq!(copy.signin(&s("ann"), &s("secret")), SigninOutcome::Authenticated);
}
