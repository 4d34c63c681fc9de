//! The possible erroneous results, surfaced to the caller as values.

use vstd::prelude::*;

verus! {

use crate::types::{AccountId, Balance, VotesNumber};

/// Every failure an operation can report.  No failure mutates any state:
/// validation happens before mutation, and settlement is two-phase.
#[derive(Debug, PartialEq, Eq, Clone, Copy, Structural)]
pub enum Error {
    /// The caller does not hold the Admin role.
    AdministrativeFunction,
    /// An administrator may not remove itself.
    CannotRemoveYourself,
    /// The target account already holds a role.
    MemberAlreadyExists,
    /// The target account holds no role.
    MemberNotExist,
    /// Both ends of a vote must hold the Contributor role.
    OnlyContributorCanVote,
    /// A contributor may not vote on itself.
    CannotVoteItself,
    /// The caller holds no contributor record.
    YouAreNotContributor,
    /// A round parameter (quota or deadline) is out of range.
    InvalidRoundParameter,
    /// No round is currently open.
    IsNoActiveRound,
    /// The latest round has not been settled yet.
    IsAnNoFinishedRound,
    /// The round's deadline has not been reached yet.
    NotYetFinishedRound,
    /// Funding the round would take the balance below the required minimum.
    InsufficientFunds,
    /// A share computation overflowed; carries the two operands.
    MulOverflow(Balance, Balance),
    /// The ledger refused a transfer; carries the account and the amount.
    TransferFailed(AccountId, Balance),
    /// The vote's value exceeds the round's quota; carries the quota.
    ExceedsVoteLimit(VotesNumber),
    /// The vote would exceed the caller's remaining quota; carries what is
    /// left of it.
    ExceedsYourVoteLimit(VotesNumber),
    /// The token contract refused a mint.
    NftNotSent,
}

} // verus!
