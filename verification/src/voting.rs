//! Vote acceptance and the reputation-update formula.

use vstd::prelude::*;

verus! {

use crate::errors::Error;
use crate::organization::{effective_record, effective_reputation, Organization};
use crate::table::{entry_index, find_entry, find_index, lemma_entry_index, lemma_find_entry_update};
use crate::tools::{isqrt, sqrt_fast};
use crate::types::{AccountId, Contributor, Reputation, Role, RoundId, Timestamp, Vote, VoteSign};

/// The notification a cast vote produces; the host forwards it to its
/// event sink.
#[derive(Debug, PartialEq, Eq, Clone, Copy, Structural)]
pub struct VoteCast {
    pub round_id: RoundId,
    pub from: AccountId,
    pub to: AccountId,
    pub value: u8,
}

/// Reputation stays within `1 ..= u32::MAX`: it is never driven to zero
/// and never wraps around.
pub open spec fn clamp_reputation(v: int) -> Reputation {
    if v < 1 {
        1
    } else if v > Reputation::MAX {
        Reputation::MAX
    } else {
        v as Reputation
    }
}

/// The reputation the receiver of a vote ends up with: the vote's value,
/// weighted by the square root of the emitter's own reputation, is added
/// or subtracted and the result clamped.
pub open spec fn reputation_after_vote(receiver: Reputation, emitter: Reputation, vote: Vote)
    -> Reputation {
    let weight = vote.value * isqrt(emitter as nat);
    if vote.sign == VoteSign::Positive {
        clamp_reputation(receiver + weight)
    } else {
        clamp_reputation(receiver - weight)
    }
}

/// Computes the reputation of a contributor: receives the receiver's and
/// the emitter's current reputation and returns the receiver's new one.
pub fn get_reputation(receiver: Reputation, emitter: Reputation, vote: Vote) -> (r: Reputation)
    ensures
        r == reputation_after_vote(receiver, emitter, vote),
        1 <= r <= Reputation::MAX,
{
    let receiver_w = receiver as i64;
    let value = vote.value as i64;
    let sign: i64 = if vote.sign == VoteSign::Positive {
        1
    } else {
        -1
    };
    let root = sqrt_fast(emitter as i64);
    proof {
        // the root of a 32-bit reputation fits in 16 bits
        if root >= 0x10000 {
            assert(root * root >= 0x10000 * 0x10000) by (nonlinear_arith)
                requires root >= 0x10000;
            assert(false);
        }
        assert(-255 <= sign * value <= 255) by (nonlinear_arith)
            requires sign == 1 || sign == -1, 0 <= value <= 255;
        assert(-(255 * 0xffff) <= (sign * value) * root <= 255 * 0xffff) by (nonlinear_arith)
            requires -255 <= sign * value <= 255, 0 <= root <= 0xffff;
        assert(0 <= value * root <= 255 * 0xffff) by (nonlinear_arith)
            requires 0 <= value <= 255, 0 <= root <= 0xffff;
        if sign == 1 {
            assert((sign * value) * root == value * root) by (nonlinear_arith)
                requires sign == 1;
        } else {
            assert((sign * value) * root == -(value * root)) by (nonlinear_arith)
                requires sign == -1;
        }
    }
    let reputation = receiver_w + sign * value * root;
    if reputation < 1 {
        1
    } else if reputation > Reputation::MAX as i64 {
        Reputation::MAX
    } else {
        reputation as Reputation
    }
}

impl Organization {
    /// Whether a round is open for voting right now: it exists and its
    /// deadline has not passed.  The vote path goes by the deadline alone
    /// and does not consult the settlement flag.
    pub open spec fn voting_open(self, now: Timestamp) -> bool {
        self.current_round_id >= 1 && self.rounds@[self.current_round_id - 1].finish_at >= now
    }

    /// The round the current round id names; meaningful once a round was
    /// opened.
    pub open spec fn current_round(self) -> crate::types::Round {
        self.rounds@[self.current_round_id - 1]
    }

    /// The role an account currently holds.
    fn get_role(&self, id: AccountId) -> (r: Option<Role>)
        ensures
            r == self.role_of(id),
    {
        match find_index(&self.members, id) {
            Some(i) => {
                proof {
                    lemma_entry_index(self.members@, id);
                }
                Some(self.members[i].1)
            },
            None => None,
        }
    }

    /// Brings a record up to the current round: the first touch within a
    /// new round resets it to a fresh standing, and the reset value is
    /// what the following steps use and persist.
    fn contributor_reset_if_necessary(&self, contributor: &mut Contributor)
        ensures
            *final(contributor) == effective_record(*old(contributor), self.current_round_id),
    {
        if contributor.round_id != self.current_round_id {
            contributor.round_id = self.current_round_id;
            contributor.reputation = 1;
            contributor.votes_submitted = 0;
        }
    }

    /// Submit a vote: the emitter gives the vote to `receiver_id`.
    ///
    /// Validation happens in order: both ends must be contributors, the
    /// emitter may not vote on itself, a round must be open for voting,
    /// the vote must fit the round's quota and then the emitter's
    /// remaining quota.  Only then are both records reset to the current
    /// round, the receiver's reputation recomputed and both persisted.
    pub fn submit_vote(
        &mut self,
        emitter_id: AccountId,
        receiver_id: AccountId,
        vote: Vote,
        now: Timestamp,
    ) -> (r: Result<VoteCast, Error>)
        requires
            old(self).wf(),
        ensures
            final(self).wf(),
            r is Err ==> *final(self) == *old(self),
            r == Err::<VoteCast, Error>(Error::OnlyContributorCanVote) <==> !(old(
                self,
            ).is_contributor(emitter_id) && old(self).is_contributor(receiver_id)),
            r == Err::<VoteCast, Error>(Error::CannotVoteItself) <==> old(self).is_contributor(
                emitter_id,
            ) && old(self).is_contributor(receiver_id) && emitter_id == receiver_id,
            r == Err::<VoteCast, Error>(Error::IsNoActiveRound) <==> old(self).is_contributor(
                emitter_id,
            ) && old(self).is_contributor(receiver_id) && emitter_id != receiver_id && !old(
                self,
            ).voting_open(now),
            r == Err::<VoteCast, Error>(Error::ExceedsVoteLimit(old(self).current_round().max_votes))
                <==> old(self).is_contributor(emitter_id) && old(self).is_contributor(receiver_id)
                && emitter_id != receiver_id && old(self).voting_open(now) && vote.value > old(
                self,
            ).current_round().max_votes,
            ({
                let o = *old(self);
                let em0 = effective_record(o.record_of(emitter_id).unwrap(), o.current_round_id);
                r == Err::<VoteCast, Error>(
                    Error::ExceedsYourVoteLimit(
                        (o.current_round().max_votes - em0.votes_submitted) as u8,
                    ),
                ) <==> o.is_contributor(emitter_id) && o.is_contributor(receiver_id) && emitter_id
                    != receiver_id && o.voting_open(now) && vote.value
                    <= o.current_round().max_votes && em0.votes_submitted + vote.value
                    > o.current_round().max_votes
            }),
            r is Ok <==> old(self).is_contributor(emitter_id) && old(self).is_contributor(
                receiver_id,
            ) && emitter_id != receiver_id && old(self).voting_open(now) && vote.value <= old(
                self,
            ).current_round().max_votes && effective_record(
                old(self).record_of(emitter_id).unwrap(),
                old(self).current_round_id,
            ).votes_submitted + vote.value <= old(self).current_round().max_votes,
            r is Ok ==> r == Ok::<VoteCast, Error>(
                VoteCast {
                    round_id: old(self).current_round_id,
                    from: emitter_id,
                    to: receiver_id,
                    value: vote.value,
                },
            ),
            r is Ok ==> ({
                let o = *old(self);
                let cur = o.current_round_id;
                let em0 = effective_record(o.record_of(emitter_id).unwrap(), cur);
                let rc0 = effective_record(o.record_of(receiver_id).unwrap(), cur);
                let em1 = (Contributor {
                    votes_submitted: (em0.votes_submitted + vote.value) as u8,
                    ..em0
                });
                let rc1 = (Contributor {
                    reputation: reputation_after_vote(rc0.reputation, em0.reputation, vote),
                    ..rc0
                });
                &&& final(self).contributors@ == o.contributors@.update(
                    entry_index(o.contributors@, emitter_id),
                    (emitter_id, em1),
                ).update(entry_index(o.contributors@, receiver_id), (receiver_id, rc1))
                &&& final(self).record_of(emitter_id) == Some(em1)
                &&& final(self).record_of(receiver_id) == Some(rc1)
                &&& forall|x: AccountId|
                    #![auto]
                    x != emitter_id && x != receiver_id ==> final(self).record_of(x) == o.record_of(
                        x,
                    )
                &&& final(self).members@ == o.members@
                &&& final(self).rounds == o.rounds
                &&& final(self).current_round_id == o.current_round_id
                &&& final(self).min_elapsed_milliseconds == o.min_elapsed_milliseconds
            }),
    {
        let ghost o = *self;
        let emitter_is_contributor = match self.get_role(emitter_id) {
            Some(Role::Contributor) => true,
            _ => false,
        };
        let receiver_is_contributor = match self.get_role(receiver_id) {
            Some(Role::Contributor) => true,
            _ => false,
        };
        if !emitter_is_contributor || !receiver_is_contributor {
            return Err(Error::OnlyContributorCanVote);
        }
        if emitter_id == receiver_id {
            return Err(Error::CannotVoteItself);
        }
        if self.current_round_id == 0 {
            return Err(Error::IsNoActiveRound);
        }
        let ridx = (self.current_round_id - 1) as usize;
        let finish_at = self.rounds[ridx].finish_at;
        let max_votes = self.rounds[ridx].max_votes;
        if finish_at < now {
            return Err(Error::IsNoActiveRound);
        }
        if vote.value > max_votes {
            return Err(Error::ExceedsVoteLimit(max_votes));
        }

        proof {
            assert(o.record_of(emitter_id) is Some);
            assert(o.record_of(receiver_id) is Some);
        }
        let ei = match find_index(&self.contributors, emitter_id) {
            Some(i) => i,
            None => {
                proof {
                    assert(false);
                }
                0
            },
        };
        let ri = match find_index(&self.contributors, receiver_id) {
            Some(i) => i,
            None => {
                proof {
                    assert(false);
                }
                0
            },
        };
        proof {
            assert(o.contributors@[ei as int].0 != o.contributors@[ri as int].0);
        }

        let mut emitter = self.contributors[ei].1;
        let mut receiver = self.contributors[ri].1;
        proof {
            lemma_entry_index(o.contributors@, emitter_id);
            lemma_entry_index(o.contributors@, receiver_id);
            assert(o.record_ok(o.contributors@[ei as int].1));
            assert(o.record_ok(o.contributors@[ri as int].1));
        }
        self.contributor_reset_if_necessary(&mut emitter);
        self.contributor_reset_if_necessary(&mut receiver);

        if emitter.votes_submitted as u32 + vote.value as u32 > max_votes as u32 {
            return Err(Error::ExceedsYourVoteLimit(max_votes - emitter.votes_submitted));
        }

        receiver.reputation = get_reputation(receiver.reputation, emitter.reputation, vote);
        emitter.votes_submitted = emitter.votes_submitted + vote.value;

        let ghost em1 = emitter;
        let ghost rc1 = receiver;
        self.contributors[ei] = (emitter_id, emitter);
        self.contributors[ri] = (receiver_id, receiver);

        proof {
            let mid = o.contributors@.update(ei as int, (emitter_id, em1));
            assert forall|x: AccountId| #![auto]
                find_entry(mid, x) == (if x == emitter_id {
                    Some(em1)
                } else {
                    find_entry(o.contributors@, x)
                }) by {
                lemma_find_entry_update(o.contributors@, ei as int, (emitter_id, em1), x);
            }
            lemma_find_entry_update(o.contributors@, ei as int, (emitter_id, em1), emitter_id);
            assert(mid[ri as int] == o.contributors@[ri as int]);
            assert forall|x: AccountId| #![auto]
                find_entry(self.contributors@, x) == (if x == receiver_id {
                    Some(rc1)
                } else {
                    find_entry(mid, x)
                }) by {
                lemma_find_entry_update(mid, ri as int, (receiver_id, rc1), x);
            }
            lemma_find_entry_update(mid, ri as int, (receiver_id, rc1), receiver_id);

            assert forall|x: AccountId|
                #![trigger self.is_contributor(x)]
                #![trigger self.record_of(x)]
                (self.is_contributor(x) <==> self.record_of(x) is Some) by {
                assert(o.is_contributor(x) <==> o.record_of(x) is Some);
            }
            assert forall|i: int|
                0 <= i < self.contributors@.len() implies self.record_ok(
                (#[trigger] self.contributors@[i]).1,
            ) by {
                if i != ei as int && i != ri as int {
                    assert(self.contributors@[i] == o.contributors@[i]);
                    assert(o.record_ok(o.contributors@[i].1));
                } else {
                    assert(o.record_ok(o.contributors@[ei as int].1));
                    assert(o.record_ok(o.contributors@[ri as int].1));
                }
            }
            assert forall|i: int|
                0 <= i < self.rounds@.len() - 1 implies (#[trigger] self.rounds@[i]).is_finished by {
                assert(o.rounds@[i].is_finished);
            }
        }

        Ok(
            VoteCast {
                round_id: self.current_round_id,
                from: emitter_id,
                to: receiver_id,
                value: vote.value,
            },
        )
    }

    /// The caller's own reputation as the current round sees it: the
    /// query is scoped to the caller's contributor record, read through
    /// the per-round reset, so it always reports at least 1.
    pub fn get_reputation(&self, caller_id: AccountId) -> (r: Result<Reputation, Error>)
        requires
            self.wf(),
        ensures
            r is Ok <==> self.is_contributor(caller_id),
            !self.is_contributor(caller_id) ==> r == Err::<Reputation, Error>(
                Error::YouAreNotContributor,
            ),
            self.is_contributor(caller_id) ==> r == Ok::<Reputation, Error>(
                effective_reputation(
                    self.record_of(caller_id).unwrap(),
                    self.current_round_id,
                ) as Reputation,
            ),
            r is Ok ==> 1 <= r.unwrap() <= Reputation::MAX,
    {
        let caller_is_contributor = match self.get_role(caller_id) {
            Some(Role::Contributor) => true,
            _ => false,
        };
        if !caller_is_contributor {
            return Err(Error::YouAreNotContributor);
        }
        match find_index(&self.contributors, caller_id) {
            Some(i) => {
                proof {
                    lemma_entry_index(self.contributors@, caller_id);
                    assert(self.record_ok(self.contributors@[i as int].1));
                }
                let record = self.contributors[i].1;
                if record.round_id == self.current_round_id && self.current_round_id >= 1 {
                    Ok(record.reputation)
                } else {
                    Ok(1)
                }
            },
            None => {
                proof {
                    assert(false);
                }
                Err(Error::YouAreNotContributor)
            },
        }
    }
}

} // verus!
