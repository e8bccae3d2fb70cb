//! Transactional core of a small trading venue: an account ledger with escrow,
//! per-market limit order books with price-time matching, and the
//! request/reply protocol that settles every match on both.

pub mod domain;
pub mod ledger;
pub mod matching;
pub mod protocol;
pub mod book;
pub mod placement;
pub mod markets;
pub mod dto;
