//! The books of a venue, one for each market, addressed by market identifier.

use std::collections::HashMap;
use vstd::prelude::*;
use crate::book::{BookView, MarketBook};
use crate::domain::Status;
use crate::ledger::{Ledger, LedgerModel, LedgerReply};
use crate::placement::{
    drive, lemma_limit_order_steps, lemma_market_order_steps, limit_order_spec, market_order_spec,
};
use crate::protocol::{BookStep, OrderbookCommand, OrderbookCommandView, OrderbookResponse, ResponseView, StepView};

verus! {

/// The books of a venue as a mathematical object.
pub type MarketsModel = Map<u64, BookView>;

/// Every book is well-formed.
pub open spec fn markets_wf(books: MarketsModel) -> bool {
    forall|id: u64| #[trigger] books.contains_key(id) ==> books[id].wf()
}

/// The first step of a command in the book it is addressed to. A command to
/// a market that is not there is answered `MarketNotFound`. A request for the
/// book is answered at once and changes nothing.
pub open spec fn begin_spec(books: MarketsModel, command: OrderbookCommandView) -> (
    MarketsModel,
    StepView,
) {
    let id = command.market();
    if !books.contains_key(id) {
        (books, StepView::Done(ResponseView::bare(Status::MarketNotFound)))
    } else {
        let (book, step) = match command {
            OrderbookCommandView::NewLimitOrder {
                market_id,
                user_id,
                side,
                qty,
                price,
            } => books[id].begin_limit_spec(market_id, user_id, side, qty, price),
            OrderbookCommandView::NewMarketOrder {
                market_id,
                user_id,
                side,
                qty,
            } => books[id].begin_market_spec(market_id, user_id, side, qty),
            OrderbookCommandView::GetBook { .. } => (
                books[id],
                StepView::Done(books[id].snapshot()),
            ),
        };
        (books.insert(id, book), step)
    }
}

/// The next step in a market, given the ledger's reply to its last request.
pub open spec fn resume_spec(books: MarketsModel, market_id: u64, reply: LedgerReply) -> (
    MarketsModel,
    StepView,
) {
    if !books.contains_key(market_id) {
        (books, StepView::Done(ResponseView::bare(Status::MarketNotFound)))
    } else {
        let (book, step) = books[market_id].resume_spec(reply);
        (books.insert(market_id, book), step)
    }
}

/// Where a command leaves the books and the ledger, and how it is answered.
pub ghost struct Outcome {
    pub books: MarketsModel,
    pub ledger: LedgerModel,
    pub response: ResponseView,
}

/// What a command comes to when it is worked off in one go.
pub open spec fn submit_spec(books: MarketsModel, m: LedgerModel, command: OrderbookCommandView) -> Outcome {
    let id = command.market();
    if !books.contains_key(id) {
        Outcome { books, ledger: m, response: ResponseView::bare(Status::MarketNotFound) }
    } else {
        match command {
            OrderbookCommandView::NewLimitOrder { market_id, user_id, side, qty, price } => {
                let placed = limit_order_spec(books[id], m, market_id, user_id, side, qty, price);
                Outcome {
                    books: books.insert(id, placed.book),
                    ledger: placed.ledger,
                    response: placed.response,
                }
            },
            OrderbookCommandView::NewMarketOrder { market_id, user_id, side, qty } => {
                let placed = market_order_spec(books[id], m, market_id, user_id, side, qty);
                Outcome {
                    books: books.insert(id, placed.book),
                    ledger: placed.ledger,
                    response: placed.response,
                }
            },
            OrderbookCommandView::GetBook { .. } => Outcome {
                books,
                ledger: m,
                response: books[id].snapshot(),
            },
        }
    }
}

/// Asking for the book changes nothing, so asking twice in a row gives the
/// same answer twice.
pub proof fn lemma_snapshot_is_repeatable(books: MarketsModel, m: LedgerModel, market_id: u64)
    ensures
        ({
            let ask = OrderbookCommandView::GetBook { market_id };
            let first = submit_spec(books, m, ask);
            let second = submit_spec(first.books, first.ledger, ask);
            &&& first.books == books
            &&& first.ledger == m
            &&& second.response == first.response
            &&& second.books == books
            &&& second.ledger == m
        }),
{
}

/// The books of a venue.
pub struct Markets {
    books: HashMap<u64, MarketBook>,
}

impl View for Markets {
    type V = MarketsModel;

    closed spec fn view(&self) -> MarketsModel {
        self.books@.map_values(|book: MarketBook| book@)
    }
}

impl Markets {
    /// Every book is well-formed.
    pub open spec fn wf(&self) -> bool {
        markets_wf(self@)
    }

    /// A venue without markets.
    pub fn new() -> (markets: Markets)
        ensures
            markets.wf(),
            markets@ == Map::<u64, BookView>::empty(),
    {
        let markets = Markets { books: HashMap::new() };
        assert(markets@ =~= Map::<u64, BookView>::empty());
        markets
    }

    /// Whether the market is there.
    pub fn has_market(&self, market_id: u64) -> (known: bool)
        ensures
            known == self@.contains_key(market_id),
    {
        self.books.contains_key(&market_id)
    }

    /// Opens a market with an empty book, unless the market is there already.
    /// Returns whether it was opened.
    pub fn open_market(&mut self, market_id: u64) -> (opened: bool)
        requires
            old(self).wf(),
        ensures
            final(self).wf(),
            opened == !old(self)@.contains_key(market_id),
            final(self)@ == (if opened {
                old(self)@.insert(market_id, MarketBook::new_spec())
            } else {
                old(self)@
            }),
    {
        if self.books.contains_key(&market_id) {
            false
        } else {
            let book = MarketBook::new();
            self.books.insert(market_id, book);
            assert(self@ =~= old(self)@.insert(market_id, MarketBook::new_spec()));
            true
        }
    }

    fn take_out(&mut self, market_id: u64) -> (book: Option<MarketBook>)
        requires
            old(self).wf(),
        ensures
            match book {
                Some(b) => old(self)@.contains_key(market_id) && b@ == old(self)@[market_id]
                    && b.wf() && final(self)@ == old(self)@.remove(market_id),
                None => !old(self)@.contains_key(market_id) && final(self)@ == old(self)@,
            },
    {
        let book = self.books.remove(&market_id);
        assert(self@ =~= old(self)@.remove(market_id));
        proof {
            if book is Some {
                assert(old(self).books@.contains_key(market_id));
                assert(old(self)@.contains_key(market_id));
                assert(book->0 == old(self).books@[market_id]);
                assert(old(self)@[market_id] == (book->0)@);
            } else {
                assert(self@ =~= old(self)@);
            }
        }
        book
    }

    fn put_back(&mut self, market_id: u64, book: MarketBook)
        ensures
            final(self)@ == old(self)@.insert(market_id, book@),
    {
        self.books.insert(market_id, book);
        assert(self@ =~= old(self)@.insert(market_id, book@));
    }

    /// Takes a command in and makes its first step in the book it is
    /// addressed to.
    pub fn begin(&mut self, command: OrderbookCommand) -> (step: BookStep)
        requires
            old(self).wf(),
        ensures
            final(self).wf(),
            (final(self)@, step@) == begin_spec(old(self)@, command@),
    {
        let id = command.market_id();
        let mut book = match self.take_out(id) {
            Some(book) => book,
            None => {
                return BookStep::Done(OrderbookResponse::bare(Status::MarketNotFound));
            },
        };
        let step = match command {
            OrderbookCommand::NewLimitOrder {
                market_id,
                user_id,
                side,
                qty,
                price,
            } => book.begin_limit_order(market_id, user_id, side, qty, price),
            OrderbookCommand::NewMarketOrder {
                market_id,
                user_id,
                side,
                qty,
            } => book.begin_market_order(market_id, user_id, side, qty),
            OrderbookCommand::GetBook { .. } => BookStep::Done(book.get_book()),
        };
        self.put_back(id, book);
        assert(final(self)@ =~= old(self)@.insert(id, book@));
        step
    }

    /// Hands the ledger's reply to the book of a market and makes its next
    /// step.
    pub fn resume(&mut self, market_id: u64, reply: LedgerReply) -> (step: BookStep)
        requires
            old(self).wf(),
        ensures
            final(self).wf(),
            (final(self)@, step@) == resume_spec(old(self)@, market_id, reply),
    {
        let mut book = match self.take_out(market_id) {
            Some(book) => book,
            None => {
                return BookStep::Done(OrderbookResponse::bare(Status::MarketNotFound));
            },
        };
        let step = book.resume(reply);
        self.put_back(market_id, book);
        assert(final(self)@ =~= old(self)@.insert(market_id, book@));
        step
    }

    /// Gives up the order in flight in a market, for the case that the
    /// ledger's reply never comes. The book stays as it is and is free again.
    pub fn abandon(&mut self, market_id: u64) -> (response: OrderbookResponse)
        requires
            old(self).wf(),
        ensures
            final(self).wf(),
            final(self)@ == (if old(self)@.contains_key(market_id) {
                old(self)@.insert(market_id, old(self)@[market_id].idled())
            } else {
                old(self)@
            }),
            response@ == ResponseView::bare(
                if old(self)@.contains_key(market_id) {
                    Status::InternalError
                } else {
                    Status::MarketNotFound
                },
            ),
    {
        let mut book = match self.take_out(market_id) {
            Some(book) => book,
            None => {
                return OrderbookResponse::bare(Status::MarketNotFound);
            },
        };
        let response = book.abandon();
        self.put_back(market_id, book);
        assert(final(self)@ =~= old(self)@.insert(market_id, book@));
        response
    }

    /// Works a command off in one go, against the given ledger.
    pub fn submit(&mut self, ledger: &mut Ledger, command: OrderbookCommand) -> (response:
        OrderbookResponse)
        requires
            old(self).wf(),
            old(ledger).wf(),
        ensures
            final(self).wf(),
            final(ledger).wf(),
            (Outcome { books: final(self)@, ledger: final(ledger)@, response: response@ })
                == submit_spec(old(self)@, old(ledger)@, command@),
    {
        let id = command.market_id();
        let mut book = match self.take_out(id) {
            Some(book) => book,
            None => {
                return OrderbookResponse::bare(Status::MarketNotFound);
            },
        };
        proof {
            match command@ {
                OrderbookCommandView::NewLimitOrder { market_id, user_id, side, qty, price } => {
                    lemma_limit_order_steps(book@, ledger@, market_id, user_id, side, qty, price);
                },
                OrderbookCommandView::NewMarketOrder { market_id, user_id, side, qty } => {
                    lemma_market_order_steps(book@, ledger@, market_id, user_id, side, qty);
                },
                OrderbookCommandView::GetBook { .. } => {},
            }
        }
        let response = match command {
            OrderbookCommand::NewLimitOrder { market_id, user_id, side, qty, price } => {
                let first = book.begin_limit_order(market_id, user_id, side, qty, price);
                drive(&mut book, ledger, first)
            },
            OrderbookCommand::NewMarketOrder { market_id, user_id, side, qty } => {
                let first = book.begin_market_order(market_id, user_id, side, qty);
                drive(&mut book, ledger, first)
            },
            OrderbookCommand::GetBook { .. } => book.get_book(),
        };
        self.put_back(id, book);
        assert(final(self)@ =~= old(self)@.insert(id, book@));
        assert(old(self)@.insert(id, old(self)@[id]) =~= old(self)@);
        response
    }
}

} // verus!
