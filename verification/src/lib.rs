//! A reputation-weighted contribution-round engine.
//!
//! A closed community of contributors casts bounded, signed votes on each
//! other during a time-boxed round; votes are weighted by the integer square
//! root of the voter's own reputation.  At round close a fixed fund is
//! distributed proportionally to final reputation and the top three
//! contributors are awarded tiered proof-of-contribution tokens.
//!
//! The engine is a pure state machine: the caller identity, the current
//! time, the contract balance, the ledger transfers and the token mints are
//! external collaborators.  Each operation receives what it needs from them
//! as plain values, and settlement hands back the list of transfers and
//! mints to perform, so that the host can apply them transactionally.

pub mod errors;
pub mod laws;
pub mod organization;
pub mod rounds;
pub mod table;
pub mod tools;
pub mod types;
pub mod voting;
