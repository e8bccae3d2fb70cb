//! The account ledger: every user's balance and holdings, the escrow that open
//! orders hold on them, and the settlement of trades.
//!
//! The ledger is modelled as a map from user identifier to [`AccountState`].
//! Every operation is specified by a function on that map, and the executable
//! operation is proved to compute exactly that function.

use vstd::prelude::*;
use crate::domain::{Side, Status, Trade, TradeView, trade_views};

verus! {

/// What the ledger knows of one user.
pub ghost struct AccountState {
    pub password: Seq<char>,
    /// Quote currency owned, escrowed part included.
    pub balance: nat,
    /// Base asset owned, escrowed part included.
    pub holdings: nat,
    /// Quote currency set aside for open bids.
    pub reserved_balance: nat,
    /// Base asset set aside for open asks.
    pub reserved_holdings: nat,
}

impl AccountState {
    /// Escrow never exceeds what is owned, and every amount fits a machine word.
    pub open spec fn sound(self) -> bool {
        &&& self.reserved_balance <= self.balance <= u64::MAX
        &&& self.reserved_holdings <= self.holdings <= u64::MAX
    }

    /// Quote currency free for new orders.
    pub open spec fn available_balance(self) -> nat {
        (self.balance - self.reserved_balance) as nat
    }

    /// Base asset free for new orders.
    pub open spec fn available_holdings(self) -> nat {
        (self.holdings - self.reserved_holdings) as nat
    }

    /// The account as it is right after signup.
    pub open spec fn fresh(password: Seq<char>) -> AccountState {
        AccountState {
            password,
            balance: 0,
            holdings: 0,
            reserved_balance: 0,
            reserved_holdings: 0,
        }
    }
}

/// The ledger as a mathematical object.
pub type LedgerModel = Map<Seq<char>, AccountState>;

/// Every account of the ledger is sound.
pub open spec fn sound_ledger(m: LedgerModel) -> bool {
    forall|e: Seq<char>| #[trigger] m.contains_key(e) ==> m[e].sound()
}

/// Answer to a signup.
#[derive(Clone, Copy, Debug, PartialEq, Eq, Structural)]
pub enum SignupOutcome {
    Created,
    AlreadyExists,
}

/// Answer to a signin.
#[derive(Clone, Copy, Debug, PartialEq, Eq, Structural)]
pub enum SigninOutcome {
    Authenticated,
    WrongPassword,
    NotFound,
}

/// Answer to a deposit.
#[derive(Clone, Copy, Debug, PartialEq, Eq, Structural)]
pub enum DepositOutcome {
    /// The deposit was booked; these are the new totals.
    Credited { balance: u64, holdings: u64 },
    NotFound,
    /// A total would no longer fit a machine word; nothing was booked.
    Overflow,
}

/// The amounts of one account, as handed out to callers.
#[derive(Clone, Copy, Debug, PartialEq, Eq, Structural)]
pub struct Balances {
    pub balance: u64,
    pub holdings: u64,
    pub reserved_balance: u64,
    pub reserved_holdings: u64,
}

impl Balances {
    /// Whether these are the amounts of `a`.
    pub open spec fn shows(self, a: AccountState) -> bool {
        &&& self.balance == a.balance
        &&& self.holdings == a.holdings
        &&& self.reserved_balance == a.reserved_balance
        &&& self.reserved_holdings == a.reserved_holdings
    }
}

/// Signup adds a fresh account unless the user is already known.
pub open spec fn signup_spec(m: LedgerModel, email: Seq<char>, password: Seq<char>) -> (
    LedgerModel,
    SignupOutcome,
) {
    if m.contains_key(email) {
        (m, SignupOutcome::AlreadyExists)
    } else {
        (m.insert(email, AccountState::fresh(password)), SignupOutcome::Created)
    }
}

/// Signin compares the password on file.
pub open spec fn signin_spec(m: LedgerModel, email: Seq<char>, password: Seq<char>) -> SigninOutcome {
    if !m.contains_key(email) {
        SigninOutcome::NotFound
    } else if m[email].password == password {
        SigninOutcome::Authenticated
    } else {
        SigninOutcome::WrongPassword
    }
}

/// A deposit raises balance and holdings by the given amounts.
pub open spec fn deposit_spec(
    m: LedgerModel,
    email: Seq<char>,
    delta_balance: u64,
    delta_holdings: u64,
) -> (LedgerModel, DepositOutcome) {
    if !m.contains_key(email) {
        (m, DepositOutcome::NotFound)
    } else {
        let a = m[email];
        if a.balance + delta_balance > u64::MAX || a.holdings + delta_holdings > u64::MAX {
            (m, DepositOutcome::Overflow)
        } else {
            (
                m.insert(
                    email,
                    AccountState {
                        balance: a.balance + delta_balance as nat,
                        holdings: a.holdings + delta_holdings as nat,
                        ..a
                    },
                ),
                DepositOutcome::Credited {
                    balance: (a.balance + delta_balance) as u64,
                    holdings: (a.holdings + delta_holdings) as u64,
                },
            )
        }
    }
}

/// What an order must put in escrow: a bid its full cost in quote currency at
/// the given price, an ask its quantity of the base asset. A bid without a
/// price has no defined cost.
pub open spec fn escrow_amount(side: Side, qty: u64, price: Option<u64>) -> Option<nat> {
    match side {
        Side::Bid => match price {
            Some(p) => Some((qty * p) as nat),
            None => None,
        },
        Side::Ask => Some(qty as nat),
    }
}

/// Reservation moves the escrow amount from available to reserved, or refuses.
pub open spec fn reserve_spec(
    m: LedgerModel,
    email: Seq<char>,
    side: Side,
    qty: u64,
    price: Option<u64>,
) -> (LedgerModel, Status) {
    match escrow_amount(side, qty, price) {
        None => (m, Status::InvalidOrder),
        Some(amount) => if !m.contains_key(email) {
            (m, Status::UserNotFound)
        } else {
            let a = m[email];
            match side {
                Side::Bid => if amount > a.available_balance() {
                    (m, Status::InsufficientFunds)
                } else {
                    (
                        m.insert(
                            email,
                            AccountState { reserved_balance: a.reserved_balance + amount, ..a },
                        ),
                        Status::Success,
                    )
                },
                Side::Ask => if amount > a.available_holdings() {
                    (m, Status::InsufficientHoldings)
                } else {
                    (
                        m.insert(
                            email,
                            AccountState { reserved_holdings: a.reserved_holdings + amount, ..a },
                        ),
                        Status::Success,
                    )
                },
            }
        },
    }
}

/// Release hands the escrow amount back from reserved to available. Asking
/// for more than is reserved is a fault.
pub open spec fn release_spec(
    m: LedgerModel,
    email: Seq<char>,
    side: Side,
    qty: u64,
    price: Option<u64>,
) -> (LedgerModel, Status) {
    match escrow_amount(side, qty, price) {
        None => (m, Status::InvalidOrder),
        Some(amount) => if !m.contains_key(email) {
            (m, Status::UserNotFound)
        } else {
            let a = m[email];
            match side {
                Side::Bid => if amount > a.reserved_balance {
                    (m, Status::InternalError)
                } else {
                    (
                        m.insert(
                            email,
                            AccountState {
                                reserved_balance: (a.reserved_balance - amount) as nat,
                                ..a
                            },
                        ),
                        Status::Success,
                    )
                },
                Side::Ask => if amount > a.reserved_holdings {
                    (m, Status::InternalError)
                } else {
                    (
                        m.insert(
                            email,
                            AccountState {
                                reserved_holdings: (a.reserved_holdings - amount) as nat,
                                ..a
                            },
                        ),
                        Status::Success,
                    )
                },
            }
        },
    }
}

/// The buyer's half of a settlement: pay `cost` out of escrow, receive `qty`.
pub open spec fn debit_buyer(a: AccountState, qty: u64, cost: nat) -> Option<AccountState> {
    if a.reserved_balance < cost || a.balance < cost || a.holdings + qty > u64::MAX {
        None
    } else {
        Some(
            AccountState {
                balance: (a.balance - cost) as nat,
                reserved_balance: (a.reserved_balance - cost) as nat,
                holdings: a.holdings + qty as nat,
                ..a
            },
        )
    }
}

/// The seller's half of a settlement: hand over `qty` out of escrow, receive `cost`.
pub open spec fn credit_seller(a: AccountState, qty: u64, cost: nat) -> Option<AccountState> {
    if a.reserved_holdings < qty || a.holdings < qty || a.balance + cost > u64::MAX {
        None
    } else {
        Some(
            AccountState {
                holdings: (a.holdings - qty) as nat,
                reserved_holdings: (a.reserved_holdings - qty) as nat,
                balance: a.balance + cost,
                ..a
            },
        )
    }
}

/// Settlement of one trade: the buyer's half, then the seller's half on the
/// result. `None` when either half cannot be applied; then nothing is.
pub open spec fn settle_spec(
    m: LedgerModel,
    buyer: Seq<char>,
    seller: Seq<char>,
    qty: u64,
    price: u64,
) -> Option<LedgerModel> {
    let cost = (qty * price) as nat;
    if !m.contains_key(buyer) || !m.contains_key(seller) {
        None
    } else {
        match debit_buyer(m[buyer], qty, cost) {
            None => None,
            Some(paid) => {
                let m1 = m.insert(buyer, paid);
                match credit_seller(m1[seller], qty, cost) {
                    None => None,
                    Some(received) => Some(m1.insert(seller, received)),
                }
            },
        }
    }
}

/// Settlement of a run of trades in order. `None` as soon as one fails.
pub open spec fn settle_all_spec(m: LedgerModel, trades: Seq<TradeView>) -> Option<LedgerModel>
    decreases trades.len(),
{
    if trades.len() == 0 {
        Some(m)
    } else {
        let t = trades[0];
        match settle_spec(m, t.buyer, t.seller, t.qty, t.price) {
            None => None,
            Some(m1) => settle_all_spec(m1, trades.drop_first()),
        }
    }
}

/// One account as the ledger stores it.
pub struct Account {
    email: String,
    password: String,
    balance: u64,
    holdings: u64,
    reserved_balance: u64,
    reserved_holdings: u64,
}

impl Account {
    spec fn state(&self) -> AccountState {
        AccountState {
            password: self.password@,
            balance: self.balance as nat,
            holdings: self.holdings as nat,
            reserved_balance: self.reserved_balance as nat,
            reserved_holdings: self.reserved_holdings as nat,
        }
    }
}

spec fn distinct_emails(s: Seq<Account>) -> bool {
    forall|i: int, j: int| 0 <= i < j < s.len() ==> (#[trigger] s[i]).email@ != (#[trigger] s[j]).email@
}

spec fn holds(s: Seq<Account>, e: Seq<char>) -> bool {
    exists|i: int| 0 <= i < s.len() && (#[trigger] s[i]).email@ == e
}

spec fn slot_of(s: Seq<Account>, e: Seq<char>) -> int {
    choose|i: int| 0 <= i < s.len() && (#[trigger] s[i]).email@ == e
}

spec fn accounts_model(s: Seq<Account>) -> LedgerModel {
    Map::new(|e: Seq<char>| holds(s, e), |e: Seq<char>| s[slot_of(s, e)].state())
}

proof fn lemma_slot(s: Seq<Account>, i: int)
    requires
        distinct_emails(s),
        0 <= i < s.len(),
    ensures
        accounts_model(s).contains_key(s[i].email@),
        accounts_model(s)[s[i].email@] == s[i].state(),
{
    let e = s[i].email@;
    assert(holds(s, e));
    let k = slot_of(s, e);
    assert(0 <= k < s.len() && s[k].email@ == e);
    if k != i {
        if k < i {
            assert(s[k].email@ != s[i].email@);
        } else {
            assert(s[i].email@ != s[k].email@);
        }
    }
}

proof fn lemma_absent(s: Seq<Account>, e: Seq<char>)
    requires
        forall|i: int| 0 <= i < s.len() ==> (#[trigger] s[i]).email@ != e,
    ensures
        !accounts_model(s).contains_key(e),
{
}

proof fn lemma_update(s: Seq<Account>, i: int, t: Seq<Account>)
    requires
        distinct_emails(s),
        0 <= i < s.len(),
        t.len() == s.len(),
        t[i].email@ == s[i].email@,
        forall|j: int| 0 <= j < s.len() && j != i ==> t[j] == s[j],
    ensures
        distinct_emails(t),
        accounts_model(t) == accounts_model(s).insert(s[i].email@, t[i].state()),
{
    assert forall|a: int, b: int| 0 <= a < b < t.len() implies (#[trigger] t[a]).email@ != (
    #[trigger] t[b]).email@ by {
        assert(t[a].email@ == s[a].email@);
        assert(t[b].email@ == s[b].email@);
        assert(s[a].email@ != s[b].email@);
    }
    let target = accounts_model(s).insert(s[i].email@, t[i].state());
    assert forall|e: Seq<char>| accounts_model(t).contains_key(e) <==> target.contains_key(e) by {
        if holds(t, e) {
            let k = slot_of(t, e);
            assert(s[k].email@ == e);
        }
        if holds(s, e) {
            let k = slot_of(s, e);
            assert(t[k].email@ == e);
        }
        if e == s[i].email@ {
            assert(t[i].email@ == e);
        }
    }
    assert forall|e: Seq<char>| accounts_model(t).contains_key(e) implies accounts_model(t)[e]
        == target[e] by {
        let k = slot_of(t, e);
        lemma_slot(t, k);
        if k == i {
        } else {
            assert(s[k].email@ == e);
            lemma_slot(s, k);
        }
    }
    assert(accounts_model(t) =~= target);
}

proof fn lemma_push(s: Seq<Account>, a: Account)
    requires
        distinct_emails(s),
        forall|i: int| 0 <= i < s.len() ==> (#[trigger] s[i]).email@ != a.email@,
    ensures
        distinct_emails(s.push(a)),
        accounts_model(s.push(a)) == accounts_model(s).insert(a.email@, a.state()),
{
    let t = s.push(a);
    let target = accounts_model(s).insert(a.email@, a.state());
    assert forall|e: Seq<char>| accounts_model(t).contains_key(e) <==> target.contains_key(e) by {
        if holds(t, e) {
            let k = slot_of(t, e);
            if k < s.len() {
                assert(s[k].email@ == e);
            }
        }
        if holds(s, e) {
            let k = slot_of(s, e);
            assert(t[k].email@ == e);
        }
        if e == a.email@ {
            assert(t[s.len() as int].email@ == e);
        }
    }
    assert forall|e: Seq<char>| accounts_model(t).contains_key(e) implies accounts_model(t)[e]
        == target[e] by {
        let k = slot_of(t, e);
        lemma_slot(t, k);
        if k < s.len() {
            assert(s[k].email@ == e);
            lemma_slot(s, k);
        }
    }
    assert(accounts_model(t) =~= target);
}

/// The account ledger.
pub struct Ledger {
    accounts: Vec<Account>,
}

impl View for Ledger {
    type V = LedgerModel;

    closed spec fn view(&self) -> LedgerModel {
        accounts_model(self.accounts@)
    }
}

impl Ledger {
    /// No two stored accounts belong to the same user.
    pub closed spec fn coherent(&self) -> bool {
        distinct_emails(self.accounts@)
    }

    /// The ledger is coherent and every account is sound.
    pub open spec fn wf(&self) -> bool {
        &&& self.coherent()
        &&& sound_ledger(self@)
    }

    /// A ledger without accounts.
    pub fn new() -> (ledger: Ledger)
        ensures
            ledger.wf(),
            ledger@ == Map::<Seq<char>, AccountState>::empty(),
    {
        let ledger = Ledger { accounts: Vec::new() };
        assert(ledger@ =~= Map::<Seq<char>, AccountState>::empty());
        ledger
    }

    fn find(&self, email: &String) -> (slot: Option<usize>)
        requires
            self.coherent(),
        ensures
            match slot {
                Some(i) => {
                    &&& i < self.accounts.len()
                    &&& self.accounts[i as int].email@ == email@
                    &&& self@.contains_key(email@)
                    &&& self@[email@] == self.accounts[i as int].state()
                },
                None => !self@.contains_key(email@),
            },
    {
        let mut i: usize = 0;
        while i < self.accounts.len()
            invariant
                i <= self.accounts.len(),
                self.coherent(),
                forall|j: int| 0 <= j < i ==> (#[trigger] self.accounts[j]).email@ != email@,
            decreases self.accounts.len() - i,
        {
            if self.accounts[i].email == *email {
                proof {
                    lemma_slot(self.accounts@, i as int);
                }
                return Some(i);
            }
            i += 1;
        }
        proof {
            lemma_absent(self.accounts@, email@);
        }
        None
    }

    fn put(&mut self, i: usize, amounts: Balances)
        requires
            old(self).coherent(),
            i < old(self).accounts.len(),
        ensures
            final(self).coherent(),
            final(self).accounts.len() == old(self).accounts.len(),
            final(self)@ == old(self)@.insert(
                old(self).accounts[i as int].email@,
                AccountState {
                    password: old(self).accounts[i as int].password@,
                    balance: amounts.balance as nat,
                    holdings: amounts.holdings as nat,
                    reserved_balance: amounts.reserved_balance as nat,
                    reserved_holdings: amounts.reserved_holdings as nat,
                },
            ),
            forall|j: int|
                0 <= j < old(self).accounts.len() ==> (#[trigger] final(self).accounts[j]).email@
                    == old(self).accounts[j].email@,
    {
        self.accounts[i].balance = amounts.balance;
        self.accounts[i].holdings = amounts.holdings;
        self.accounts[i].reserved_balance = amounts.reserved_balance;
        self.accounts[i].reserved_holdings = amounts.reserved_holdings;
        proof {
            lemma_update(old(self).accounts@, i as int, self.accounts@);
        }
    }

    /// Opens an account with nothing in it, unless the user already has one.
    pub fn signup(&mut self, email: String, password: String) -> (outcome: SignupOutcome)
        requires
            old(self).wf(),
        ensures
            final(self).wf(),
            (final(self)@, outcome) == signup_spec(old(self)@, email@, password@),
    {
        match self.find(&email) {
            Some(_) => SignupOutcome::AlreadyExists,
            None => {
                let account = Account {
                    email,
                    password,
                    balance: 0,
                    holdings: 0,
                    reserved_balance: 0,
                    reserved_holdings: 0,
                };
                proof {
                    lemma_push(self.accounts@, account);
                }
                self.accounts.push(account);
                SignupOutcome::Created
            },
        }
    }

    /// Checks a user's password.
    pub fn signin(&self, email: &String, password: &String) -> (outcome: SigninOutcome)
        requires
            self.wf(),
        ensures
            outcome == signin_spec(self@, email@, password@),
    {
        match self.find(email) {
            None => SigninOutcome::NotFound,
            Some(i) => if self.accounts[i].password == *password {
                SigninOutcome::Authenticated
            } else {
                SigninOutcome::WrongPassword
            },
        }
    }

    /// Whether the user has an account.
    pub fn check_exists(&self, email: &String) -> (known: bool)
        requires
            self.wf(),
        ensures
            known == self@.contains_key(email@),
    {
        self.find(email).is_some()
    }

    /// The amounts of a user's account.
    pub fn balances(&self, email: &String) -> (amounts: Option<Balances>)
        requires
            self.wf(),
        ensures
            match amounts {
                Some(b) => self@.contains_key(email@) && b.shows(self@[email@]),
                None => !self@.contains_key(email@),
            },
    {
        match self.find(email) {
            None => None,
            Some(i) => Some(
                Balances {
                    balance: self.accounts[i].balance,
                    holdings: self.accounts[i].holdings,
                    reserved_balance: self.accounts[i].reserved_balance,
                    reserved_holdings: self.accounts[i].reserved_holdings,
                },
            ),
        }
    }

    /// Books funding from outside the venue.
    pub fn deposit(&mut self, email: &String, delta_balance: u64, delta_holdings: u64) -> (outcome:
        DepositOutcome)
        requires
            old(self).wf(),
        ensures
            final(self).wf(),
            (final(self)@, outcome) == deposit_spec(
                old(self)@,
                email@,
                delta_balance,
                delta_holdings,
            ),
    {
        let i = match self.find(email) {
            Some(i) => i,
            None => {
                return DepositOutcome::NotFound;
            },
        };
        let balance = match self.accounts[i].balance.checked_add(delta_balance) {
            Some(b) => b,
            None => {
                return DepositOutcome::Overflow;
            },
        };
        let holdings = match self.accounts[i].holdings.checked_add(delta_holdings) {
            Some(h) => h,
            None => {
                return DepositOutcome::Overflow;
            },
        };
        let amounts = Balances {
            balance,
            holdings,
            reserved_balance: self.accounts[i].reserved_balance,
            reserved_holdings: self.accounts[i].reserved_holdings,
        };
        self.put(i, amounts);
        DepositOutcome::Credited { balance, holdings }
    }

    /// Puts the escrow of an order aside, or says why it cannot.
    pub fn reserve(&mut self, email: &String, side: Side, qty: u64, price: Option<u64>) -> (status:
        Status)
        requires
            old(self).wf(),
        ensures
            final(self).wf(),
            (final(self)@, status) == reserve_spec(old(self)@, email@, side, qty, price),
    {
        match side {
            Side::Bid => {
                let p = match price {
                    Some(p) => p,
                    None => {
                        return Status::InvalidOrder;
                    },
                };
                let i = match self.find(email) {
                    Some(i) => i,
                    None => {
                        return Status::UserNotFound;
                    },
                };
                let a = self.amounts_at(i);
                let amount = match qty.checked_mul(p) {
                    Some(c) => c,
                    None => {
                        return Status::InsufficientFunds;
                    },
                };
                if amount > a.balance - a.reserved_balance {
                    return Status::InsufficientFunds;
                }
                self.put(i, Balances { reserved_balance: a.reserved_balance + amount, ..a });
                Status::Success
            },
            Side::Ask => {
                let i = match self.find(email) {
                    Some(i) => i,
                    None => {
                        return Status::UserNotFound;
                    },
                };
                let a = self.amounts_at(i);
                if qty > a.holdings - a.reserved_holdings {
                    return Status::InsufficientHoldings;
                }
                self.put(i, Balances { reserved_holdings: a.reserved_holdings + qty, ..a });
                Status::Success
            },
        }
    }

    /// Hands the escrow of an order, or of what is left of one, back to its owner.
    pub fn release_reservation(
        &mut self,
        email: &String,
        side: Side,
        qty: u64,
        price: Option<u64>,
    ) -> (status: Status)
        requires
            old(self).wf(),
        ensures
            final(self).wf(),
            (final(self)@, status) == release_spec(old(self)@, email@, side, qty, price),
    {
        match side {
            Side::Bid => {
                let p = match price {
                    Some(p) => p,
                    None => {
                        return Status::InvalidOrder;
                    },
                };
                let i = match self.find(email) {
                    Some(i) => i,
                    None => {
                        return Status::UserNotFound;
                    },
                };
                let a = self.amounts_at(i);
                let amount = match qty.checked_mul(p) {
                    Some(c) => c,
                    None => {
                        return Status::InternalError;
                    },
                };
                if amount > a.reserved_balance {
                    return Status::InternalError;
                }
                self.put(i, Balances { reserved_balance: a.reserved_balance - amount, ..a });
                Status::Success
            },
            Side::Ask => {
                let i = match self.find(email) {
                    Some(i) => i,
                    None => {
                        return Status::UserNotFound;
                    },
                };
                let a = self.amounts_at(i);
                if qty > a.reserved_holdings {
                    return Status::InternalError;
                }
                self.put(i, Balances { reserved_holdings: a.reserved_holdings - qty, ..a });
                Status::Success
            },
        }
    }

    /// Settles one trade: the buyer pays `qty * price` out of escrow and
    /// receives `qty`; the seller hands over `qty` out of escrow and receives
    /// the payment. Returns `false`, with nothing changed, when the escrow of
    /// either is short, a party is unknown, or a total would overflow.
    pub fn settle(&mut self, buyer: &String, seller: &String, qty: u64, price: u64) -> (done: bool)
        requires
            old(self).wf(),
        ensures
            final(self).wf(),
            match settle_spec(old(self)@, buyer@, seller@, qty, price) {
                Some(m) => done && final(self)@ == m,
                None => !done && final(self)@ == old(self)@,
            },
    {
        let bi = match self.find(buyer) {
            Some(i) => i,
            None => {
                return false;
            },
        };
        let si = match self.find(seller) {
            Some(i) => i,
            None => {
                return false;
            },
        };
        let b = self.amounts_at(bi);
        let cost = match qty.checked_mul(price) {
            Some(c) => c,
            None => {
                return false;
            },
        };
        if b.reserved_balance < cost {
            return false;
        }
        let bought = match b.holdings.checked_add(qty) {
            Some(h) => h,
            None => {
                return false;
            },
        };
        let paid = Balances {
            balance: b.balance - cost,
            reserved_balance: b.reserved_balance - cost,
            holdings: bought,
            ..b
        };
        let s = if si == bi {
            paid
        } else {
            self.amounts_at(si)
        };
        if s.reserved_holdings < qty {
            return false;
        }
        let earned = match s.balance.checked_add(cost) {
            Some(t) => t,
            None => {
                return false;
            },
        };
        let received = Balances {
            holdings: s.holdings - qty,
            reserved_holdings: s.reserved_holdings - qty,
            balance: earned,
            ..s
        };
        self.put(bi, paid);
        self.put(si, received);
        true
    }

    /// Settles the trades of one command in order, all of them or none:
    /// returns `false`, with nothing changed, as soon as one cannot be settled.
    pub fn settle_all(&mut self, trades: &Vec<Trade>) -> (done: bool)
        requires
            old(self).wf(),
        ensures
            final(self).wf(),
            match settle_all_spec(old(self)@, trade_views(trades@)) {
                Some(m) => done && final(self)@ == m,
                None => !done && final(self)@ == old(self)@,
            },
    {
        let mut work = self.duplicate();
        let mut i: usize = 0;
        assert(trade_views(trades@).skip(0) =~= trade_views(trades@));
        while i < trades.len()
            invariant
                i <= trades.len(),
                self.wf(),
                work.wf(),
                settle_all_spec(old(self)@, trade_views(trades@)) == settle_all_spec(
                    work@,
                    trade_views(trades@).skip(i as int),
                ),
                *self == *old(self),
            decreases trades.len() - i,
        {
            let ghost rest = trade_views(trades@).skip(i as int);
            assert(rest[0] == trades[i as int]@);
            assert(rest.drop_first() =~= trade_views(trades@).skip(i + 1));
            let t = &trades[i];
            if !work.settle(&t.buyer, &t.seller, t.qty, t.price) {
                return false;
            }
            i += 1;
        }
        *self = work;
        true
    }

    /// An independent copy of the ledger.
    pub fn duplicate(&self) -> (copy: Ledger)
        requires
            self.wf(),
        ensures
            copy.wf(),
            copy@ == self@,
    {
        let mut accounts: Vec<Account> = Vec::new();
        let mut i: usize = 0;
        while i < self.accounts.len()
            invariant
                i <= self.accounts.len(),
                accounts.len() == i,
                forall|j: int| 0 <= j < i ==> accounts[j] == self.accounts[j],
            decreases self.accounts.len() - i,
        {
            let a = &self.accounts[i];
            accounts.push(
                Account {
                    email: a.email.clone(),
                    password: a.password.clone(),
                    balance: a.balance,
                    holdings: a.holdings,
                    reserved_balance: a.reserved_balance,
                    reserved_holdings: a.reserved_holdings,
                },
            );
            i += 1;
        }
        assert(accounts@ =~= self.accounts@);
        Ledger { accounts }
    }

    fn amounts_at(&self, i: usize) -> (amounts: Balances)
        requires
            i < self.accounts.len(),
        ensures
            amounts.shows(self.accounts[i as int].state()),
    {
        Balances {
            balance: self.accounts[i].balance,
            holdings: self.accounts[i].holdings,
            reserved_balance: self.accounts[i].reserved_balance,
            reserved_holdings: self.accounts[i].reserved_holdings,
        }
    }

    /// Carries out one command and answers it. Commands are taken one at a
    /// time, in the order they arrive.
    pub fn apply(&mut self, command: LedgerCommand) -> (reply: LedgerReply)
        requires
            old(self).wf(),
        ensures
            final(self).wf(),
            (final(self)@, reply) == apply_spec(old(self)@, command@),
    {
        match command {
            LedgerCommand::Signup { email, password } => LedgerReply::Signup(
                self.signup(email, password),
            ),
            LedgerCommand::Signin { email, password } => LedgerReply::Signin(
                self.signin(&email, &password),
            ),
            LedgerCommand::Deposit { email, delta_balance, delta_holdings } => LedgerReply::Deposit(
                self.deposit(&email, delta_balance, delta_holdings),
            ),
            LedgerCommand::CheckExists { email } => LedgerReply::Exists(self.check_exists(&email)),
            LedgerCommand::Reserve { email, side, qty, price } => LedgerReply::Reserved(
                self.reserve(&email, side, qty, price),
            ),
            LedgerCommand::Settle { trades } => if self.settle_all(&trades) {
                LedgerReply::Settled(Status::Success)
            } else {
                LedgerReply::Settled(Status::InternalError)
            },
            LedgerCommand::ReleaseReservation { email, side, qty, price } => LedgerReply::Released(
                self.release_reservation(&email, side, qty, price),
            ),
        }
    }
}

/// A command to the ledger.
#[derive(Debug)]
pub enum LedgerCommand {
    Signup { email: String, password: String },
    Signin { email: String, password: String },
    Deposit { email: String, delta_balance: u64, delta_holdings: u64 },
    CheckExists { email: String },
    /// Put the escrow of an order aside.
    Reserve { email: String, side: Side, qty: u64, price: Option<u64> },
    /// Settle the trades of one order, all of them or none.
    Settle { trades: Vec<Trade> },
    /// Hand escrow back.
    ReleaseReservation { email: String, side: Side, qty: u64, price: Option<u64> },
}

/// The mathematical content of a [`LedgerCommand`].
pub ghost enum LedgerCommandView {
    Signup { email: Seq<char>, password: Seq<char> },
    Signin { email: Seq<char>, password: Seq<char> },
    Deposit { email: Seq<char>, delta_balance: u64, delta_holdings: u64 },
    CheckExists { email: Seq<char> },
    Reserve { email: Seq<char>, side: Side, qty: u64, price: Option<u64> },
    Settle { trades: Seq<TradeView> },
    ReleaseReservation { email: Seq<char>, side: Side, qty: u64, price: Option<u64> },
}

impl View for LedgerCommand {
    type V = LedgerCommandView;

    open spec fn view(&self) -> LedgerCommandView {
        match *self {
            LedgerCommand::Signup { email, password } => LedgerCommandView::Signup {
                email: email@,
                password: password@,
            },
            LedgerCommand::Signin { email, password } => LedgerCommandView::Signin {
                email: email@,
                password: password@,
            },
            LedgerCommand::Deposit {
                email,
                delta_balance,
                delta_holdings,
            } => LedgerCommandView::Deposit { email: email@, delta_balance, delta_holdings },
            LedgerCommand::CheckExists { email } => LedgerCommandView::CheckExists { email: email@ },
            LedgerCommand::Reserve { email, side, qty, price } => LedgerCommandView::Reserve {
                email: email@,
                side,
                qty,
                price,
            },
            LedgerCommand::Settle { trades } => LedgerCommandView::Settle {
                trades: trade_views(trades@),
            },
            LedgerCommand::ReleaseReservation {
                email,
                side,
                qty,
                price,
            } => LedgerCommandView::ReleaseReservation { email: email@, side, qty, price },
        }
    }
}

/// The ledger's answer to a command.
#[derive(Clone, Copy, Debug, PartialEq, Eq, Structural)]
pub enum LedgerReply {
    Signup(SignupOutcome),
    Signin(SigninOutcome),
    Deposit(DepositOutcome),
    Exists(bool),
    Reserved(Status),
    /// `Success`, or `InternalError` when the trades could not be settled.
    Settled(Status),
    Released(Status),
}

/// What a command does to the ledger and how it is answered.
pub open spec fn apply_spec(m: LedgerModel, command: LedgerCommandView) -> (
    LedgerModel,
    LedgerReply,
) {
    match command {
        LedgerCommandView::Signup { email, password } => {
            let (after, outcome) = signup_spec(m, email, password);
            (after, LedgerReply::Signup(outcome))
        },
        LedgerCommandView::Signin { email, password } => (
            m,
            LedgerReply::Signin(signin_spec(m, email, password)),
        ),
        LedgerCommandView::Deposit { email, delta_balance, delta_holdings } => {
            let (after, outcome) = deposit_spec(m, email, delta_balance, delta_holdings);
            (after, LedgerReply::Deposit(outcome))
        },
        LedgerCommandView::CheckExists { email } => (m, LedgerReply::Exists(m.contains_key(email))),
        LedgerCommandView::Reserve { email, side, qty, price } => {
            let (after, status) = reserve_spec(m, email, side, qty, price);
            (after, LedgerReply::Reserved(status))
        },
        LedgerCommandView::Settle { trades } => match settle_all_spec(m, trades) {
            Some(after) => (after, LedgerReply::Settled(Status::Success)),
            None => (m, LedgerReply::Settled(Status::InternalError)),
        },
        LedgerCommandView::ReleaseReservation { email, side, qty, price } => {
            let (after, status) = release_spec(m, email, side, qty, price);
            (after, LedgerReply::Released(status))
        },
    }
}

/// The ledger after a run of commands, taken in order.
pub open spec fn run_spec(m: LedgerModel, commands: Seq<LedgerCommandView>) -> LedgerModel
    decreases commands.len(),
{
    if commands.len() == 0 {
        m
    } else {
        apply_spec(run_spec(m, commands.drop_last()), commands.last()).0
    }
}

/// Settling one trade keeps a sound ledger sound.
pub proof fn lemma_settle_keeps_sound(
    m: LedgerModel,
    buyer: Seq<char>,
    seller: Seq<char>,
    qty: u64,
    price: u64,
)
    requires
        sound_ledger(m),
    ensures
        settle_spec(m, buyer, seller, qty, price) matches Some(after) ==> sound_ledger(after),
{
}

/// Settling a run of trades keeps a sound ledger sound.
pub proof fn lemma_settle_all_keeps_sound(m: LedgerModel, trades: Seq<TradeView>)
    requires
        sound_ledger(m),
    ensures
        settle_all_spec(m, trades) matches Some(after) ==> sound_ledger(after),
    decreases trades.len(),
{
    if trades.len() > 0 {
        let t = trades[0];
        lemma_settle_keeps_sound(m, t.buyer, t.seller, t.qty, t.price);
        match settle_spec(m, t.buyer, t.seller, t.qty, t.price) {
            Some(next) => lemma_settle_all_keeps_sound(next, trades.drop_first()),
            None => {},
        }
    }
}

/// No command breaks a sound ledger.
pub proof fn lemma_apply_keeps_sound(m: LedgerModel, command: LedgerCommandView)
    requires
        sound_ledger(m),
    ensures
        sound_ledger(apply_spec(m, command).0),
{
    match command {
        LedgerCommandView::Settle { trades } => {
            lemma_settle_all_keeps_sound(m, trades);
        },
        _ => {},
    }
}

/// Escrow never exceeds funds: whatever commands a sound ledger is given
/// (reservations, settlements and releases among them), after every one of
/// them each account still has `balance >= reserved_balance` and
/// `holdings >= reserved_holdings`.
pub proof fn lemma_escrow_never_exceeds_funds(m: LedgerModel, commands: Seq<LedgerCommandView>)
    requires
        sound_ledger(m),
    ensures
        forall|n: int|
            0 <= n <= commands.len() ==> sound_ledger(#[trigger] run_spec(m, commands.take(n))),
    decreases commands.len(),
{
    assert forall|n: int| 0 <= n <= commands.len() implies sound_ledger(
        #[trigger] run_spec(m, commands.take(n)),
    ) by {
        lemma_run_keeps_sound(m, commands.take(n));
    }
}

/// A run of commands keeps a sound ledger sound.
pub proof fn lemma_run_keeps_sound(m: LedgerModel, commands: Seq<LedgerCommandView>)
    requires
        sound_ledger(m),
    ensures
        sound_ledger(run_spec(m, commands)),
    decreases commands.len(),
{
    if commands.len() > 0 {
        lemma_run_keeps_sound(m, commands.drop_last());
        lemma_apply_keeps_sound(run_spec(m, commands.drop_last()), commands.last());
    }
}

/// Settlement conserves value. When a trade between two different users is
/// settled, the buyer's balance falls by exactly `qty * price` and the
/// seller's rises by the same; the buyer's holdings rise by `qty` and the
/// seller's fall by `qty`; the escrow of both shrinks by what was paid out of
/// it, and no other account changes.
pub proof fn lemma_settlement_conserves_value(
    m: LedgerModel,
    buyer: Seq<char>,
    seller: Seq<char>,
    qty: u64,
    price: u64,
)
    requires
        buyer != seller,
        settle_spec(m, buyer, seller, qty, price) is Some,
    ensures
        ({
            let after = settle_spec(m, buyer, seller, qty, price).unwrap();
            &&& after.dom() == m.dom()
            &&& after[buyer].balance == m[buyer].balance - qty * price
            &&& after[seller].balance == m[seller].balance + qty * price
            &&& after[buyer].holdings == m[buyer].holdings + qty
            &&& after[seller].holdings == m[seller].holdings - qty
            &&& after[buyer].reserved_balance == m[buyer].reserved_balance - qty * price
            &&& after[seller].reserved_holdings == m[seller].reserved_holdings - qty
            &&& after[buyer].reserved_holdings == m[buyer].reserved_holdings
            &&& after[seller].reserved_balance == m[seller].reserved_balance
            &&& forall|e: Seq<char>|
                m.contains_key(e) && e != buyer && e != seller ==> #[trigger] after[e] == m[e]
        }),
{
    let after = settle_spec(m, buyer, seller, qty, price).unwrap();
    assert(after.dom() =~= m.dom());
}

/// Settlement neither makes nor loses anything, also when a user trades with
/// themselves: the balances of buyer and seller add up to what they did, and
/// so do their holdings.
pub proof fn lemma_settlement_keeps_totals(
    m: LedgerModel,
    buyer: Seq<char>,
    seller: Seq<char>,
    qty: u64,
    price: u64,
)
    requires
        settle_spec(m, buyer, seller, qty, price) is Some,
    ensures
        ({
            let after = settle_spec(m, buyer, seller, qty, price).unwrap();
            &&& after[buyer].balance + after[seller].balance == m[buyer].balance
                + m[seller].balance
            &&& after[buyer].holdings + after[seller].holdings == m[buyer].holdings
                + m[seller].holdings
        }),
{
}

/// Release is the inverse of reservation: releasing what was just reserved
/// gives back the ledger as it was.
pub proof fn lemma_release_undoes_reserve(
    m: LedgerModel,
    email: Seq<char>,
    side: Side,
    qty: u64,
    price: Option<u64>,
)
    requires
        reserve_spec(m, email, side, qty, price).1 == Status::Success,
    ensures
        release_spec(reserve_spec(m, email, side, qty, price).0, email, side, qty, price) == (
            m,
            Status::Success,
        ),
{
    let reserved = reserve_spec(m, email, side, qty, price).0;
    let released = release_spec(reserved, email, side, qty, price).0;
    assert(released =~= m);
}

/// Escrow can be handed back in two parts: releasing `part` of a reserved
/// quantity and then the rest comes to the same as releasing it whole.
pub proof fn lemma_release_in_parts(
    m: LedgerModel,
    email: Seq<char>,
    side: Side,
    qty: u64,
    part: u64,
    price: Option<u64>,
)
    requires
        part <= qty,
        release_spec(m, email, side, qty, price).1 == Status::Success,
    ensures
        ({
            let first = release_spec(m, email, side, part, price);
            let second = release_spec(first.0, email, side, (qty - part) as u64, price);
            &&& first.1 == Status::Success
            &&& second == release_spec(m, email, side, qty, price)
        }),
{
    let first = release_spec(m, email, side, part, price);
    let second = release_spec(first.0, email, side, (qty - part) as u64, price);
    let whole = release_spec(m, email, side, qty, price);
    match price {
        Some(p) => {
            assert(part * p + (qty - part) * p == qty * p) by (nonlinear_arith);
            assert(part * p <= qty * p) by (nonlinear_arith)
                requires
                    part <= qty,
            ;
        },
        None => {},
    }
    assert(second.0 =~= whole.0);
}

} // verus!
