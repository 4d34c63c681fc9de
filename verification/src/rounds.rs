//! Round lifecycle and settlement: opening a round, computing the
//! proportional payout and the three award tiers, and marking the round
//! finished.
//!
//! Settlement is two-phase so that the whole close is all-or-nothing:
//! `close_round` only validates and computes the `Settlement`; the host
//! performs the transfers and the mints it lists, and calls `finish_round`
//! only when every one of them succeeded.  A failure on the way leaves the
//! round unfinished and the engine's state untouched.

use vstd::prelude::*;

verus! {

use crate::errors::Error;
use crate::organization::{effective_record, Organization};
use crate::types::{AccountId, Balance, Contributor, Reputation, Round, RoundId, Timestamp,
    VotesNumber};

/// The notification an opened round produces.
#[derive(Debug, PartialEq, Eq, Clone, Copy, Structural)]
pub struct NewRound {
    pub round_id: RoundId,
    pub value: Balance,
    pub max_votes: VotesNumber,
    pub finish_at: Timestamp,
}

/// The notification a settled round produces, carrying the totals the
/// settlement observed.
#[derive(Debug, PartialEq, Eq, Clone, Copy, Structural)]
pub struct CloseRound {
    pub round_id: RoundId,
    pub total_votes: u128,
    pub total_reputation: u128,
}

/// Everything the host must apply to settle a round: the proportional
/// transfers in payout order, then the award mints, best first ("gold",
/// "silver", "bronze").
#[derive(Debug, PartialEq, Eq)]
pub struct Settlement {
    pub round_id: RoundId,
    pub transfers: Vec<(AccountId, Balance)>,
    pub mints: Vec<AccountId>,
    pub total_votes: u128,
    pub total_reputation: u128,
}

/// Sum of the votes submitted, as settlement sees the records.
pub open spec fn sum_votes(s: Seq<(AccountId, Contributor)>, current: RoundId) -> int
    decreases s.len(),
{
    if s.len() == 0 {
        0
    } else {
        sum_votes(s.drop_last(), current) + effective_record(s.last().1, current).votes_submitted
    }
}

/// Sum of the reputations, as settlement sees the records.
pub open spec fn sum_reputation(s: Seq<(AccountId, Contributor)>, current: RoundId) -> int
    decreases s.len(),
{
    if s.len() == 0 {
        0
    } else {
        sum_reputation(s.drop_last(), current) + effective_record(s.last().1, current).reputation
    }
}

proof fn lemma_sum_step(s: Seq<(AccountId, Contributor)>, current: RoundId, i: int)
    requires
        0 <= i < s.len(),
    ensures
        sum_votes(s.take(i + 1), current) == sum_votes(s.take(i), current) + effective_record(
            s[i].1,
            current,
        ).votes_submitted,
        sum_reputation(s.take(i + 1), current) == sum_reputation(s.take(i), current)
            + effective_record(s[i].1, current).reputation,
{
    assert(s.take(i + 1).drop_last() =~= s.take(i));
    assert(s.take(i + 1).last() == s[i]);
}

/// The reputations settlement works with, in payout order.
pub open spec fn eff_reps(o: Organization) -> Seq<Reputation> {
    o.contributors@.map(
        |i: int, e: (AccountId, Contributor)| effective_record(e.1, o.current_round_id).reputation,
    )
}

/// Each contributor's transfer: the fund times its reputation, divided by
/// the total reputation, rounded down; the remainder stays unaccounted.
pub open spec fn settlement_transfers(o: Organization) -> Seq<(AccountId, Balance)> {
    let total = sum_reputation(o.contributors@, o.current_round_id);
    let value = o.current_round().value;
    o.contributors@.map(
        |i: int, e: (AccountId, Contributor)|
            (
                e.0,
                ((value * effective_record(e.1, o.current_round_id).reputation) / total) as Balance,
            ),
    )
}

/// Index of the first share computation that would overflow, or -1.
pub open spec fn first_overflow(
    s: Seq<(AccountId, Contributor)>,
    value: Balance,
    current: RoundId,
) -> int
    decreases s.len(),
{
    if s.len() == 0 {
        -1
    } else if value * effective_record(s[0].1, current).reputation > u128::MAX {
        0
    } else {
        let r = first_overflow(s.drop_first(), value, current);
        if r < 0 {
            -1
        } else {
            r + 1
        }
    }
}

proof fn lemma_first_overflow_at(
    s: Seq<(AccountId, Contributor)>,
    value: Balance,
    current: RoundId,
    i: int,
)
    requires
        0 <= i < s.len(),
        value * effective_record(s[i].1, current).reputation > u128::MAX,
        forall|j: int|
            0 <= j < i ==> value * effective_record((#[trigger] s[j]).1, current).reputation
                <= u128::MAX,
    ensures
        first_overflow(s, value, current) == i,
    decreases s.len(),
{
    if i > 0 {
        assert(forall|j: int|
            0 <= j < s.drop_first().len() ==> (#[trigger] s.drop_first()[j]) == s[j + 1]);
        assert(s.drop_first()[i - 1] == s[i]);
        lemma_first_overflow_at(s.drop_first(), value, current, i - 1);
    }
}

proof fn lemma_no_overflow(
    s: Seq<(AccountId, Contributor)>,
    value: Balance,
    current: RoundId,
)
    requires
        forall|j: int|
            0 <= j < s.len() ==> value * effective_record((#[trigger] s[j]).1, current).reputation
                <= u128::MAX,
    ensures
        first_overflow(s, value, current) == -1,
    decreases s.len(),
{
    if s.len() > 0 {
        assert(forall|j: int|
            0 <= j < s.drop_first().len() ==> (#[trigger] s.drop_first()[j]) == s[j + 1]);
        lemma_no_overflow(s.drop_first(), value, current);
    }
}

/// Index of the best reputation among the first `k`, later entries
/// winning ties: the order in which a stable ascending sort would be
/// popped from the top.
pub open spec fn best_upto(reps: Seq<Reputation>, k: int) -> int
    decreases k,
{
    if k <= 1 {
        0
    } else {
        let b = best_upto(reps, k - 1);
        if reps[k - 1] >= reps[b] {
            k - 1
        } else {
            b
        }
    }
}

pub proof fn lemma_best_upto(reps: Seq<Reputation>, k: int)
    requires
        1 <= k <= reps.len(),
    ensures
        0 <= best_upto(reps, k) < k,
        forall|j: int| 0 <= j < k ==> (#[trigger] reps[j]) <= reps[best_upto(reps, k)],
    decreases k,
{
    if k > 1 {
        lemma_best_upto(reps, k - 1);
    }
}

/// The indices of the up-to-`k` best reputations, best first, each picked
/// as `best_upto` does and then masked out; a zero reputation marks an
/// exhausted field, since settlement reputations are at least 1.
pub open spec fn podium(reps: Seq<Reputation>, k: nat) -> Seq<int>
    decreases k,
{
    if k == 0 || reps.len() == 0 {
        Seq::empty()
    } else {
        let b = best_upto(reps, reps.len() as int);
        if reps[b] == 0 {
            Seq::empty()
        } else {
            seq![b] + podium(reps.update(b, 0), (k - 1) as nat)
        }
    }
}

/// Every place on a podium names a valid index into the field.
pub proof fn lemma_podium_in_range(reps: Seq<Reputation>, k: nat)
    ensures
        forall|t: int|
            0 <= t < podium(reps, k).len() ==> 0 <= #[trigger] podium(reps, k)[t] < reps.len(),
    decreases k,
{
    if k > 0 && reps.len() > 0 {
        let b = best_upto(reps, reps.len() as int);
        lemma_best_upto(reps, reps.len() as int);
        if reps[b] != 0 {
            lemma_podium_in_range(reps.update(b, 0), (k - 1) as nat);
            assert forall|t: int|
                0 <= t < podium(reps, k).len() implies 0 <= #[trigger] podium(reps, k)[t]
                < reps.len() by {
                if t > 0 {
                    assert(podium(reps, k)[t] == podium(reps.update(b, 0), (k - 1) as nat)[t - 1]);
                }
            }
        }
    }
}

/// The accounts to mint awards to, best reputation first.
pub open spec fn settlement_mints(o: Organization) -> Seq<AccountId> {
    podium(eff_reps(o), 3).map(|i: int, idx: int| o.contributors@[idx].0)
}

/// The scan that picks the best remaining reputation, or nothing when the
/// field is empty or exhausted.
fn pick_best(s: &Vec<Reputation>) -> (r: Option<usize>)
    ensures
        match r {
            Some(b) => s@.len() >= 1 && b < s@.len() && b as int == best_upto(
                s@,
                s@.len() as int,
            ) && s@[b as int] > 0,
            None => s@.len() == 0 || s@[best_upto(s@, s@.len() as int)] == 0,
        },
{
    let n = s.len();
    if n == 0 {
        return None;
    }
    let mut best: usize = 0;
    let mut i: usize = 1;
    while i < n
        invariant
            n == s@.len(),
            1 <= i <= n,
            best < i,
            best as int == best_upto(s@, i as int),
        decreases n - i,
    {
        if s[i] >= s[best] {
            best = i;
        }
        i += 1;
    }
    if s[best] > 0 {
        Some(best)
    } else {
        None
    }
}

impl Organization {
    /// Whether the latest round exists, is not settled and its deadline
    /// has passed: exactly when `close_round` has work to do.
    pub open spec fn closable(self, now: Timestamp) -> bool {
        &&& self.current_round_id >= 1
        &&& !self.current_round().is_finished
        &&& self.current_round().finish_at <= now
    }

    /// Administrative function: opens a new round of voting over a fund.
    ///
    /// `now` is the host clock's current time; `balance` and
    /// `minimum_balance` are the contract's balance and the least balance
    /// it must keep, so the round's fund must leave that minimum behind.
    pub fn open_round(
        &mut self,
        caller_id: AccountId,
        name: String,
        value: Balance,
        max_votes: VotesNumber,
        finish_at: Timestamp,
        now: Timestamp,
        balance: Balance,
        minimum_balance: Balance,
    ) -> (r: Result<NewRound, Error>)
        requires
            old(self).wf(),
            old(self).current_round_id < RoundId::MAX,
        ensures
            final(self).wf(),
            r is Err ==> *final(self) == *old(self),
            r == Err::<NewRound, Error>(Error::AdministrativeFunction) <==> !old(self).is_admin(
                caller_id,
            ),
            r == Err::<NewRound, Error>(Error::IsAnNoFinishedRound) <==> old(self).is_admin(
                caller_id,
            ) && old(self).has_unfinished_round(),
            r == Err::<NewRound, Error>(Error::InvalidRoundParameter) <==> old(self).is_admin(
                caller_id,
            ) && !old(self).has_unfinished_round() && (max_votes < 1 || finish_at < now + old(self).min_elapsed_milliseconds),
            r == Err::<NewRound, Error>(Error::InsufficientFunds) <==> old(self).is_admin(caller_id)
                && !old(self).has_unfinished_round() && max_votes >= 1 && finish_at >= now + old(self).min_elapsed_milliseconds && value + minimum_balance > balance,
            r is Ok <==> old(self).is_admin(caller_id) && !old(self).has_unfinished_round()
                && max_votes >= 1 && finish_at >= now + old(self).min_elapsed_milliseconds && value
                + minimum_balance <= balance,
            r is Ok ==> r == Ok::<NewRound, Error>(
                NewRound {
                    round_id: (old(self).current_round_id + 1) as RoundId,
                    value,
                    max_votes,
                    finish_at,
                },
            ),
            r is Ok ==> final(self).rounds@ == old(self).rounds@.push(
                (Round { name, value, max_votes, finish_at, is_finished: false }),
            ) && final(self).current_round_id == old(self).current_round_id + 1 && final(self).members@ == old(self).members@ && final(self).contributors@ == old(self).contributors@
                && final(self).min_elapsed_milliseconds == old(self).min_elapsed_milliseconds,
            r is Ok ==> final(self).has_unfinished_round(),
    {
        if let Err(e) = self.is_caller_admin(caller_id) {
            return Err(e);
        }
        if let Err(e) = self.is_active_round() {
            return Err(e);
        }
        if max_votes < 1 {
            return Err(Error::InvalidRoundParameter);
        }
        if finish_at < now || finish_at - now < self.min_elapsed_milliseconds {
            return Err(Error::InvalidRoundParameter);
        }
        if balance < minimum_balance || value > balance - minimum_balance {
            return Err(Error::InsufficientFunds);
        }

        let ghost o = *self;
        let round = Round { name, value, max_votes, finish_at, is_finished: false };
        self.current_round_id = self.current_round_id + 1;
        self.rounds.push(round);
        proof {
            assert forall|x: AccountId|
                #![trigger self.is_contributor(x)]
                #![trigger self.record_of(x)]
                (self.is_contributor(x) <==> self.record_of(x) is Some) by {
                assert(o.is_contributor(x) <==> o.record_of(x) is Some);
            }
            assert forall|i: int|
                0 <= i < self.contributors@.len() implies self.record_ok(
                (#[trigger] self.contributors@[i]).1,
            ) by {
                assert(o.record_ok(o.contributors@[i].1));
                let c = o.contributors@[i].1;
                if c.round_id >= 1 {
                    assert(self.rounds@[c.round_id - 1] == o.rounds@[c.round_id - 1]);
                }
            }
            assert forall|i: int|
                0 <= i < self.rounds@.len() - 1 implies (#[trigger] self.rounds@[i]).is_finished by {
                if i < o.rounds@.len() - 1 {
                    assert(o.rounds@[i].is_finished);
                } else {
                    // the previous latest round: it was finished, or there
                    // was none
                    assert(self.rounds@[i] == o.rounds@[o.rounds@.len() - 1]);
                }
            }
        }
        Ok(NewRound { round_id: self.current_round_id, value, max_votes, finish_at })
    }

    /// The totals settlement reports: votes cast and reputation standing,
    /// summed over the records as the current round sees them.
    fn settlement_totals(&self) -> (t: (u128, u128))
        requires
            self.wf(),
        ensures
            t.0 == sum_votes(self.contributors@, self.current_round_id),
            t.1 == sum_reputation(self.contributors@, self.current_round_id),
            self.current_round_id >= 1 ==> t.1 >= self.contributors@.len(),
    {
        let ghost s = self.contributors@;
        let ghost cur = self.current_round_id;
        let n = self.contributors.len();
        let mut total_votes: u128 = 0;
        let mut total_reputation: u128 = 0;
        let mut i: usize = 0;
        while i < n
            invariant
                self.wf(),
                s == self.contributors@,
                cur == self.current_round_id,
                n == s.len(),
                i <= n,
                total_votes == sum_votes(s.take(i as int), cur),
                total_reputation == sum_reputation(s.take(i as int), cur),
                total_votes <= i * 255,
                total_reputation <= i * 0xffffffff,
                cur >= 1 ==> total_reputation >= i,
            decreases n - i,
        {
            let rec = self.contributors[i].1;
            let eff_votes: u8 = if rec.round_id == self.current_round_id {
                rec.votes_submitted
            } else {
                0
            };
            let eff_rep: u32 = if rec.round_id == self.current_round_id {
                rec.reputation
            } else {
                1
            };
            proof {
                assert(self.record_ok(s[i as int].1));
                assert(eff_votes == effective_record(s[i as int].1, cur).votes_submitted);
                assert(eff_rep == effective_record(s[i as int].1, cur).reputation);
                lemma_sum_step(s, cur, i as int);
            }
            total_votes = total_votes + eff_votes as u128;
            total_reputation = total_reputation + eff_rep as u128;
            i = i + 1;
        }
        proof {
            assert(s.take(n as int) =~= s);
        }
        (total_votes, total_reputation)
    }

    /// Administrative function: validates that the latest round can be
    /// closed and computes the settlement to perform.
    ///
    /// Nothing is mutated here.  The host applies the transfers and then
    /// the mints, in order, and calls `finish_round` only if all of them
    /// succeeded; its transactional rollback keeps a partial application
    /// from ever being observed.
    #[verifier::loop_isolation(false)]
    pub fn close_round(&self, caller_id: AccountId, now: Timestamp) -> (r: Result<
        Settlement,
        Error,
    >)
        requires
            self.wf(),
        ensures
            r == Err::<Settlement, Error>(Error::AdministrativeFunction) <==> !self.is_admin(
                caller_id,
            ),
            r == Err::<Settlement, Error>(Error::IsNoActiveRound) <==> self.is_admin(caller_id) && (
            self.current_round_id == 0 || self.current_round().is_finished),
            r == Err::<Settlement, Error>(Error::NotYetFinishedRound) <==> self.is_admin(caller_id)
                && self.current_round_id >= 1 && !self.current_round().is_finished
                && self.current_round().finish_at > now,
            ({
                let fo = first_overflow(
                    self.contributors@,
                    self.current_round().value,
                    self.current_round_id,
                );
                &&& (r is Err && r != Err::<Settlement, Error>(Error::AdministrativeFunction) && r
                    != Err::<Settlement, Error>(Error::IsNoActiveRound) && r != Err::<
                    Settlement,
                    Error,
                >(Error::NotYetFinishedRound) <==> self.is_admin(caller_id) && self.closable(now)
                    && fo >= 0)
                &&& self.is_admin(caller_id) && self.closable(now) && fo >= 0 ==> r == Err::<
                    Settlement,
                    Error,
                >(
                    Error::MulOverflow(
                        self.current_round().value,
                        effective_record(
                            self.contributors@[fo].1,
                            self.current_round_id,
                        ).reputation as Balance,
                    ),
                )
            }),
            r is Ok <==> self.is_admin(caller_id) && self.closable(now) && first_overflow(
                self.contributors@,
                self.current_round().value,
                self.current_round_id,
            ) == -1,
            r is Ok ==> ({
                let s = r.unwrap();
                &&& s.round_id == self.current_round_id
                &&& s.total_votes == sum_votes(self.contributors@, self.current_round_id)
                &&& s.total_reputation == sum_reputation(self.contributors@, self.current_round_id)
                &&& s.transfers@ == settlement_transfers(*self)
                &&& s.mints@ == settlement_mints(*self)
                &&& s.mints@.len() == if self.contributors@.len() < 3 {
                    self.contributors@.len() as int
                } else {
                    3
                }
            }),
    {
        if let Err(e) = self.is_caller_admin(caller_id) {
            return Err(e);
        }
        if self.current_round_id == 0 {
            return Err(Error::IsNoActiveRound);
        }
        let ridx = (self.current_round_id - 1) as usize;
        if self.rounds[ridx].is_finished {
            return Err(Error::IsNoActiveRound);
        }
        if self.rounds[ridx].finish_at > now {
            return Err(Error::NotYetFinishedRound);
        }
        let value = self.rounds[ridx].value;

        let totals = self.settlement_totals();
        let total_votes = totals.0;
        let total_reputation = totals.1;

        let ghost s = self.contributors@;
        let ghost cur = self.current_round_id;
        let n = self.contributors.len();

        // collect the payout entries as the round sees them
        let mut accounts: Vec<AccountId> = Vec::new();
        let mut reps: Vec<Reputation> = Vec::new();
        let mut i: usize = 0;
        while i < n
            invariant
                self.wf(),
                s == self.contributors@,
                cur == self.current_round_id,
                cur >= 1,
                n == s.len(),
                i <= n,
                accounts@.len() == i as int,
                reps@.len() == i as int,
                forall|j: int| 0 <= j < i ==> (#[trigger] accounts@[j]) == s[j].0,
                forall|j: int|
                    0 <= j < i ==> (#[trigger] reps@[j]) == effective_record(
                        s[j].1,
                        cur,
                    ).reputation,
            decreases n - i,
        {
            let e = self.contributors[i];
            let eff_rep: u32 = if e.1.round_id == self.current_round_id {
                e.1.reputation
            } else {
                1
            };
            accounts.push(e.0);
            reps.push(eff_rep);
            i = i + 1;
        }

        // the proportional shares, refused wholesale if any would overflow
        let mut transfers: Vec<(AccountId, Balance)> = Vec::new();
        let mut k: usize = 0;
        while k < n
            invariant
                self.wf(),
                s == self.contributors@,
                cur == self.current_round_id,
                cur >= 1,
                n == s.len(),
                k <= n,
                value == self.current_round().value,
                total_reputation == sum_reputation(s, cur),
                n >= 1 ==> total_reputation >= 1,
                accounts@.len() == n as int,
                reps@.len() == n as int,
                forall|j: int| 0 <= j < n ==> (#[trigger] accounts@[j]) == s[j].0,
                forall|j: int|
                    0 <= j < n ==> (#[trigger] reps@[j]) == effective_record(
                        s[j].1,
                        cur,
                    ).reputation,
                transfers@.len() == k as int,
                forall|j: int|
                    0 <= j < k ==> (#[trigger] transfers@[j]) == (
                        s[j].0,
                        ((value * effective_record(s[j].1, cur).reputation) / sum_reputation(
                            s,
                            cur,
                        )) as Balance,
                    ),
                forall|j: int|
                    0 <= j < k ==> value * effective_record((#[trigger] s[j]).1, cur).reputation
                        <= u128::MAX,
            decreases n - k,
        {
            let rep = reps[k];
            match value.checked_mul(rep as u128) {
                Some(product) => {
                    let share = product / total_reputation;
                    transfers.push((accounts[k], share));
                },
                None => {
                    proof {
                        lemma_first_overflow_at(s, value, cur, k as int);
                    }
                    return Err(Error::MulOverflow(value, rep as u128));
                },
            }
            k = k + 1;
        }
        proof {
            lemma_no_overflow(s, value, cur);
            assert(transfers@ =~= settlement_transfers(*self));
        }

        // the three award tiers, best reputation first
        let ghost reps0 = reps@;
        let mut mints: Vec<AccountId> = Vec::new();
        proof {
            assert(reps0 =~= eff_reps(*self));
            assert forall|j: int| 0 <= j < reps0.len() implies (#[trigger] reps0[j]) >= 1 by {
                assert(self.record_ok(s[j].1));
            }
        }
        match pick_best(&reps) {
            Some(b1) => {
                mints.push(accounts[b1]);
                reps[b1] = 0;
                let ghost reps1 = reps0.update(b1 as int, 0u32);
                match pick_best(&reps) {
                    Some(b2) => {
                        mints.push(accounts[b2]);
                        reps[b2] = 0;
                        let ghost reps2 = reps1.update(b2 as int, 0u32);
                        match pick_best(&reps) {
                            Some(b3) => {
                                mints.push(accounts[b3]);
                                reps[b3] = 0;
                                proof {
                                    let reps3 = reps2.update(b3 as int, 0u32);
                                    assert(b2 != b1 && b3 != b1 && b3 != b2);
                                    assert(n >= 3);
                                    assert(podium(reps3, 0) =~= Seq::<int>::empty());
                                    assert(podium(reps2, 1) == seq![b3 as int] + podium(reps3, 0));
                                    assert(podium(reps1, 2) == seq![b2 as int] + podium(reps2, 1));
                                    assert(podium(reps0, 3) == seq![b1 as int] + podium(reps1, 2));
                                    assert(podium(reps0, 3) =~= seq![
                                        b1 as int,
                                        b2 as int,
                                        b3 as int,
                                    ]);
                                }
                            },
                            None => {
                                proof {
                                    // only two contributors were left to rank
                                    assert(b2 != b1);
                                    if n >= 3 {
                                        let j: int = if b1 != 0 && b2 != 0 {
                                            0
                                        } else if b1 != 1 && b2 != 1 {
                                            1
                                        } else {
                                            2
                                        };
                                        assert(reps2[j] == reps0[j]);
                                        lemma_best_upto(reps2, n as int);
                                        assert(false);
                                    }
                                    assert(n == 2);
                                    assert(podium(reps2, 1) =~= Seq::<int>::empty());
                                    assert(podium(reps1, 2) == seq![b2 as int] + podium(reps2, 1));
                                    assert(podium(reps0, 3) == seq![b1 as int] + podium(reps1, 2));
                                    assert(podium(reps0, 3) =~= seq![b1 as int, b2 as int]);
                                }
                            },
                        }
                    },
                    None => {
                        proof {
                            // a single contributor takes the only award
                            if n >= 2 {
                                let j: int = if b1 != 0 {
                                    0
                                } else {
                                    1
                                };
                                assert(reps1[j] == reps0[j]);
                                lemma_best_upto(reps1, n as int);
                                assert(false);
                            }
                            assert(n == 1);
                            assert(podium(reps1, 2) =~= Seq::<int>::empty());
                            assert(podium(reps0, 3) == seq![b1 as int] + podium(reps1, 2));
                            assert(podium(reps0, 3) =~= seq![b1 as int]);
                        }
                    },
                }
            },
            None => {
                proof {
                    // nobody to pay, nobody to award
                    assert(n == 0);
                    assert(podium(reps0, 3) =~= Seq::<int>::empty());
                }
            },
        }
        proof {
            assert(mints@ =~= settlement_mints(*self));
        }

        Ok(
            Settlement {
                round_id: self.current_round_id,
                transfers,
                mints,
                total_votes,
                total_reputation,
            },
        )
    }

    /// Administrative function: marks the latest round finished, after the
    /// host applied its settlement in full, and reports the totals the
    /// settlement observed.
    pub fn finish_round(&mut self, caller_id: AccountId, now: Timestamp) -> (r: Result<
        CloseRound,
        Error,
    >)
        requires
            old(self).wf(),
        ensures
            final(self).wf(),
            r is Err ==> *final(self) == *old(self),
            r == Err::<CloseRound, Error>(Error::AdministrativeFunction) <==> !old(self).is_admin(
                caller_id,
            ),
            r == Err::<CloseRound, Error>(Error::IsNoActiveRound) <==> old(self).is_admin(caller_id)
                && (old(self).current_round_id == 0 || old(self).current_round().is_finished),
            r == Err::<CloseRound, Error>(Error::NotYetFinishedRound) <==> old(self).is_admin(
                caller_id,
            ) && old(self).current_round_id >= 1 && !old(self).current_round().is_finished && old(self).current_round().finish_at > now,
            r is Ok <==> old(self).is_admin(caller_id) && old(self).closable(now),
            r is Ok ==> r == Ok::<CloseRound, Error>(
                CloseRound {
                    round_id: old(self).current_round_id,
                    total_votes: sum_votes(
                        old(self).contributors@,
                        old(self).current_round_id,
                    ) as u128,
                    total_reputation: sum_reputation(
                        old(self).contributors@,
                        old(self).current_round_id,
                    ) as u128,
                },
            ),
            r is Ok ==> final(self).rounds@ == old(self).rounds@.update(
                old(self).current_round_id - 1,
                (Round { is_finished: true, ..old(self).current_round() }),
            ) && final(self).members@ == old(self).members@ && final(self).contributors@ == old(self).contributors@ && final(self).current_round_id == old(self).current_round_id && final(self).min_elapsed_milliseconds == old(self).min_elapsed_milliseconds,
            r is Ok ==> !final(self).has_unfinished_round(),
    {
        if let Err(e) = self.is_caller_admin(caller_id) {
            return Err(e);
        }
        if self.current_round_id == 0 {
            return Err(Error::IsNoActiveRound);
        }
        let ridx = (self.current_round_id - 1) as usize;
        if self.rounds[ridx].is_finished {
            return Err(Error::IsNoActiveRound);
        }
        if self.rounds[ridx].finish_at > now {
            return Err(Error::NotYetFinishedRound);
        }

        let totals = self.settlement_totals();

        let ghost o = *self;
        self.rounds[ridx].is_finished = true;
        proof {
            assert forall|x: AccountId|
                #![trigger self.is_contributor(x)]
                #![trigger self.record_of(x)]
                (self.is_contributor(x) <==> self.record_of(x) is Some) by {
                assert(o.is_contributor(x) <==> o.record_of(x) is Some);
            }
            assert forall|i: int|
                0 <= i < self.contributors@.len() implies self.record_ok(
                (#[trigger] self.contributors@[i]).1,
            ) by {
                assert(o.record_ok(o.contributors@[i].1));
                let c = o.contributors@[i].1;
                if c.round_id >= 1 {
                    assert(self.rounds@[c.round_id - 1].max_votes == o.rounds@[c.round_id
                        - 1].max_votes);
                }
            }
            assert forall|i: int|
                0 <= i < self.rounds@.len() - 1 implies (#[trigger] self.rounds@[i]).is_finished by {
                assert(o.rounds@[i].is_finished);
            }
        }
        Ok(
            CloseRound {
                round_id: self.current_round_id,
                total_votes: totals.0,
                total_reputation: totals.1,
            },
        )
    }
}

} // verus!
