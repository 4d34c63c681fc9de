//! The data model: roles, contributor records, votes and rounds.

use vstd::prelude::*;

verus! {

/// An already-authenticated account identifier, handed in by the host.
pub type AccountId = u64;

/// A point in time, in milliseconds.
pub type Timestamp = u64;

/// An amount of funds.
pub type Balance = u128;

/// Identifier of a round: sequential numbers starting at one, zero meaning
/// that no round was ever opened.
pub type RoundId = u32;

/// Contributor reputation, at least one once a round has touched the record.
pub type Reputation = u32;

/// A number of vote units.
pub type VotesNumber = u8;

/// The role a member holds: an account has at most one role at a time.
#[derive(Debug, PartialEq, Eq, Clone, Copy, Structural)]
pub enum Role {
    Admin,
    Contributor,
}

/// A contributor's standing in the round tagged by `round_id`.
///
/// A record is created with `round_id == 0` ("never initialized") and is
/// lazily reset to `{ round_id: current, reputation: 1, votes_submitted: 0 }`
/// the first time it is touched within a new round.
#[derive(Debug, PartialEq, Eq, Clone, Copy, Structural)]
pub struct Contributor {
    pub round_id: RoundId,
    pub reputation: Reputation,
    pub votes_submitted: VotesNumber,
}

impl Default for Contributor {
    /// A freshly registered contributor: not yet touched by any round.
    fn default() -> (c: Contributor)
        ensures
            c == (Contributor { round_id: 0, reputation: 0, votes_submitted: 0 }),
    {
        Contributor { round_id: 0, reputation: 0, votes_submitted: 0 }
    }
}

/// The sign of a vote: positive adds reputation, negative subtracts it.
#[derive(Debug, PartialEq, Eq, Clone, Copy, Structural)]
pub enum VoteSign {
    Positive,
    Negative,
}

/// A vote to cast: transient input, never stored.
#[derive(Debug, PartialEq, Eq, Clone, Copy, Structural)]
pub struct Vote {
    pub sign: VoteSign,
    pub value: VotesNumber,
}

/// A round of voting with the fund it distributes at close.
///
/// Rounds form an append-only log; at most the latest may be unfinished.
#[derive(Debug)]
pub struct Round {
    /// Name of the round.
    pub name: String,
    /// Funds to be distributed in the round.
    pub value: Balance,
    /// Maximum number of vote units per contributor.
    pub max_votes: VotesNumber,
    /// End date of the round (timestamp), in milliseconds.
    pub finish_at: Timestamp,
    /// Whether the distribution was completed.
    pub is_finished: bool,
}

} // verus!
