//! The organization aggregate: role bookkeeping, the contributor ledger and
//! the round log, with the invariant every operation preserves.

use vstd::prelude::*;

verus! {

use crate::errors::Error;
use crate::table::{
    entry_index, find_entry, find_index, lemma_entry_index, lemma_find_entry_present,
    lemma_find_entry_push, lemma_find_entry_remove, unique_ids,
};
use crate::types::{AccountId, Contributor, Role, Round, RoundId, Timestamp};

/// The record as a round sees it: reset to a fresh standing the first time
/// it is touched within a new round, kept as stored otherwise.  Settlement
/// reads these reset values, so a contributor untouched in the closing
/// round takes part with reputation 1, not with a stale score.
pub open spec fn effective_record(c: Contributor, current: RoundId) -> Contributor {
    if c.round_id == current {
        c
    } else {
        Contributor { round_id: current, reputation: 1, votes_submitted: 0 }
    }
}

/// The reputation an observer sees: at least 1, since a record that no
/// round ever touched counts as freshly reset.
pub open spec fn effective_reputation(c: Contributor, current: RoundId) -> int {
    if c.round_id == current && current >= 1 {
        c.reputation as int
    } else {
        1
    }
}

/// The engine's whole mutable state, owned as one aggregate.  The caller
/// identity, the clock and the balance are handed in by the host call by
/// call.
pub struct Organization {
    /// Log of all rounds, append-only; the round with id `i` sits at
    /// index `i - 1`.
    pub rounds: Vec<Round>,
    /// Current round id, starting at 1; 0 means no round was opened yet.
    pub current_round_id: RoundId,
    /// Minimum duration of a round, for the next round to open.
    pub min_elapsed_milliseconds: Timestamp,
    /// All members with their role, in order of admission.
    pub members: Vec<(AccountId, Role)>,
    /// All contributors with their record, in order of admission: also the
    /// order in which settlement pays out.
    pub contributors: Vec<(AccountId, Contributor)>,
}

impl Organization {
    /// The role an account currently holds.
    pub open spec fn role_of(self, id: AccountId) -> Option<Role> {
        find_entry(self.members@, id)
    }

    pub open spec fn is_admin(self, id: AccountId) -> bool {
        self.role_of(id) == Some(Role::Admin)
    }

    pub open spec fn is_contributor(self, id: AccountId) -> bool {
        self.role_of(id) == Some(Role::Contributor)
    }

    /// The stored contributor record of an account.
    pub open spec fn record_of(self, id: AccountId) -> Option<Contributor> {
        find_entry(self.contributors@, id)
    }

    /// Whether the latest round exists and still awaits settlement.
    pub open spec fn has_unfinished_round(self) -> bool {
        self.current_round_id >= 1 && !self.rounds@[self.current_round_id - 1].is_finished
    }

    /// What every stored contributor record satisfies.
    pub open spec fn record_ok(self, c: Contributor) -> bool {
        &&& c.round_id <= self.current_round_id
        &&& c.round_id == 0 ==> c.reputation == 0 && c.votes_submitted == 0
        &&& c.round_id >= 1 ==> c.reputation >= 1 && c.votes_submitted <= self.rounds@[c.round_id
            - 1].max_votes
    }

    /// Well-formedness: every operation requires and preserves it.
    pub open spec fn wf(self) -> bool {
        &&& self.rounds@.len() == self.current_round_id as int
        &&& unique_ids(self.members@)
        &&& unique_ids(self.contributors@)
        &&& forall|id: AccountId|
            #![trigger self.is_contributor(id)]
            #![trigger self.record_of(id)]
            (self.is_contributor(id) <==> self.record_of(id) is Some)
        &&& forall|i: int|
            0 <= i < self.contributors@.len() ==> self.record_ok(
                (#[trigger] self.contributors@[i]).1,
            )
        &&& forall|i: int| 0 <= i < self.rounds@.len() - 1 ==> (#[trigger] self.rounds@[i]).is_finished
    }

    /// Well-formedness only looks at the tables and the round log, so it
    /// carries over to a state that differs in nothing else.
    pub proof fn lemma_wf_same_tables(a: Organization, b: Organization)
        requires
            a.wf(),
            b.members@ == a.members@,
            b.contributors@ == a.contributors@,
            b.rounds@ == a.rounds@,
            b.current_round_id == a.current_round_id,
        ensures
            b.wf(),
    {
        assert forall|id: AccountId|
            #![trigger b.is_contributor(id)]
            #![trigger b.record_of(id)]
            (b.is_contributor(id) <==> b.record_of(id) is Some) by {
            assert(a.is_contributor(id) <==> a.record_of(id) is Some);
            assert(b.is_contributor(id) == a.is_contributor(id));
            assert(b.record_of(id) == a.record_of(id));
        }
        assert forall|i: int|
            0 <= i < b.contributors@.len() implies b.record_ok(
            (#[trigger] b.contributors@[i]).1,
        ) by {
            assert(a.record_ok(a.contributors@[i].1));
        }
        assert forall|i: int|
            0 <= i < b.rounds@.len() - 1 implies (#[trigger] b.rounds@[i]).is_finished by {
            assert(a.rounds@[i].is_finished);
        }
    }

    /// Sets up the organization with one Admin member and no rounds.
    pub fn new(administrator_id: AccountId, min_elapsed_hours: u32) -> (org: Organization)
        ensures
            org.wf(),
            org.rounds@ == Seq::<Round>::empty(),
            org.current_round_id == 0,
            org.min_elapsed_milliseconds == min_elapsed_hours as int * 3600000,
            org.members@ == seq![(administrator_id, Role::Admin)],
            org.contributors@ == Seq::<(AccountId, Contributor)>::empty(),
            org.is_admin(administrator_id),
            forall|x: AccountId| x != administrator_id ==> #[trigger] org.role_of(x) is None,
    {
        let mut members: Vec<(AccountId, Role)> = Vec::new();
        members.push((administrator_id, Role::Admin));
        let org = Organization {
            rounds: Vec::new(),
            current_round_id: 0,
            min_elapsed_milliseconds: (min_elapsed_hours as u64) * 60 * 60 * 1000,
            members,
            contributors: Vec::new(),
        };
        proof {
            assert(org.members@ =~= seq![(administrator_id, Role::Admin)]);
            assert forall|x: AccountId| #[trigger] org.role_of(x) == (if x == administrator_id {
                Some(Role::Admin)
            } else {
                None::<Role>
            }) by {
                assert(org.members@[0] == (administrator_id, Role::Admin));
                if x != administrator_id {
                    assert(org.members@.drop_first() =~= Seq::<(AccountId, Role)>::empty());
                    assert(find_entry(Seq::<(AccountId, Role)>::empty(), x) is None);
                }
            }
            assert forall|x: AccountId| #[trigger] org.record_of(x) is None by {
                assert(find_entry(Seq::<(AccountId, Contributor)>::empty(), x) is None);
            }
        }
        org
    }

    /// Gives `contributor_id` the role, and a fresh contributor record if
    /// the role is Contributor.
    fn add_member(&mut self, contributor_id: AccountId, role: Role)
        requires
            old(self).wf(),
            old(self).role_of(contributor_id) is None,
        ensures
            final(self).wf(),
            final(self).members@ == old(self).members@.push((contributor_id, role)),
            final(self).contributors@ == if role == Role::Contributor {
                old(self).contributors@.push(
                    (contributor_id, Contributor { round_id: 0, reputation: 0, votes_submitted: 0 }),
                )
            } else {
                old(self).contributors@
            },
            final(self).rounds == old(self).rounds,
            final(self).current_round_id == old(self).current_round_id,
            final(self).min_elapsed_milliseconds == old(self).min_elapsed_milliseconds,
            forall|x: AccountId| #![auto]
                final(self).role_of(x) == if x == contributor_id {
                    Some(role)
                } else {
                    old(self).role_of(x)
                },
            forall|x: AccountId| #![auto]
                final(self).record_of(x) == if x == contributor_id && role == Role::Contributor {
                    Some(Contributor { round_id: 0, reputation: 0, votes_submitted: 0 })
                } else {
                    old(self).record_of(x)
                },
    {
        let ghost o = *self;
        self.members.push((contributor_id, role));
        proof {
            assert forall|x: AccountId| #![auto]
                find_entry(self.members@, x) == (if x == contributor_id {
                    Some(role)
                } else {
                    find_entry(o.members@, x)
                }) by {
                lemma_find_entry_push(o.members@, (contributor_id, role), x);
            }
            lemma_find_entry_push(o.members@, (contributor_id, role), contributor_id);
        }

        if role == Role::Contributor {
            let record = Contributor::default();
            let ghost c = self.contributors@;
            self.contributors.push((contributor_id, record));
            proof {
                // the account had no role, so by well-formedness no record
                assert(!o.is_contributor(contributor_id));
                assert(o.record_of(contributor_id) is None);
                assert forall|x: AccountId| #![auto]
                    find_entry(self.contributors@, x) == (if x == contributor_id {
                        Some(record)
                    } else {
                        find_entry(o.contributors@, x)
                    }) by {
                    lemma_find_entry_push(
                        o.contributors@,
                        (contributor_id, record),
                        x,
                    );
                }
                lemma_find_entry_push(o.contributors@, (contributor_id, record), contributor_id);
                assert(self.contributors@[self.contributors@.len() - 1].1 == record);
                assert forall|i: int|
                    0 <= i < self.contributors@.len() implies self.record_ok(
                    (#[trigger] self.contributors@[i]).1,
                ) by {
                    if i < self.contributors@.len() - 1 {
                        assert(self.contributors@[i] == o.contributors@[i]);
                    }
                }
            }
        }
        proof {
            assert forall|x: AccountId|
                #![trigger self.is_contributor(x)]
                #![trigger self.record_of(x)]
                (self.is_contributor(x) <==> self.record_of(x) is Some) by {
                assert(o.is_contributor(x) <==> o.record_of(x) is Some);
            }
            assert forall|i: int|
                0 <= i < self.rounds@.len() - 1 implies (#[trigger] self.rounds@[i]).is_finished by {
                assert(o.rounds@[i].is_finished);
            }
        }
    }

    /// Takes away `contributor_id`'s role, and its contributor record and
    /// place in the payout order if it has them.
    fn rem_member(&mut self, contributor_id: AccountId)
        requires
            old(self).wf(),
            old(self).role_of(contributor_id) is Some,
        ensures
            final(self).wf(),
            final(self).members@ == old(self).members@.remove(
                entry_index(old(self).members@, contributor_id),
            ),
            final(self).contributors@ == if old(self).record_of(contributor_id) is Some {
                old(self).contributors@.remove(
                    entry_index(old(self).contributors@, contributor_id),
                )
            } else {
                old(self).contributors@
            },
            final(self).rounds == old(self).rounds,
            final(self).current_round_id == old(self).current_round_id,
            final(self).min_elapsed_milliseconds == old(self).min_elapsed_milliseconds,
            forall|x: AccountId| #![auto]
                final(self).role_of(x) == if x == contributor_id {
                    None::<Role>
                } else {
                    old(self).role_of(x)
                },
            forall|x: AccountId| #![auto]
                final(self).record_of(x) == if x == contributor_id {
                    None::<Contributor>
                } else {
                    old(self).record_of(x)
                },
    {
        let ghost o = *self;
        match find_index(&self.members, contributor_id) {
            Some(i) => {
                self.members.remove(i);
                proof {
                    assert forall|x: AccountId| #![auto]
                        find_entry(self.members@, x) == (if x == contributor_id {
                            None::<Role>
                        } else {
                            find_entry(o.members@, x)
                        }) by {
                        lemma_find_entry_remove(o.members@, i as int, x);
                    }
                    lemma_find_entry_remove(o.members@, i as int, contributor_id);
                }
            },
            None => {
                proof {
                    assert(false);
                }
            },
        }

        match find_index(&self.contributors, contributor_id) {
            Some(i) => {
                self.contributors.remove(i);
                proof {
                    assert forall|x: AccountId| #![auto]
                        find_entry(self.contributors@, x) == (if x == contributor_id {
                            None::<Contributor>
                        } else {
                            find_entry(o.contributors@, x)
                        }) by {
                        lemma_find_entry_remove(o.contributors@, i as int, x);
                    }
                    lemma_find_entry_present(o.contributors@, contributor_id, i as int);
                    lemma_find_entry_remove(o.contributors@, i as int, contributor_id);
                    assert forall|x: int|
                        0 <= x < self.contributors@.len() implies self.record_ok(
                        (#[trigger] self.contributors@[x]).1,
                    ) by {
                        if x < i {
                            assert(self.contributors@[x] == o.contributors@[x]);
                        } else {
                            assert(self.contributors@[x] == o.contributors@[x + 1]);
                        }
                    }
                }
            },
            None => {
                proof {
                    assert(o.record_of(contributor_id) is None);
                }
            },
        }
        proof {
            assert forall|x: AccountId|
                #![trigger self.is_contributor(x)]
                #![trigger self.record_of(x)]
                (self.is_contributor(x) <==> self.record_of(x) is Some) by {
                assert(o.is_contributor(x) <==> o.record_of(x) is Some);
            }
            assert forall|i: int|
                0 <= i < self.rounds@.len() - 1 implies (#[trigger] self.rounds@[i]).is_finished by {
                assert(o.rounds@[i].is_finished);
            }
        }
    }

    /// The admin gate every administrative operation passes first.
    pub(crate) fn is_caller_admin(&self, caller_id: AccountId) -> (r: Result<(), Error>)
        ensures
            r is Ok <==> self.is_admin(caller_id),
            !self.is_admin(caller_id) ==> r == Err::<(), Error>(Error::AdministrativeFunction),
    {
        match find_index(&self.members, caller_id) {
            Some(i) => {
                proof {
                    lemma_entry_index(self.members@, caller_id);
                }
                if self.members[i].1 == Role::Admin {
                    Ok(())
                } else {
                    Err(Error::AdministrativeFunction)
                }
            },
            None => Err(Error::AdministrativeFunction),
        }
    }

    /// Refuses to proceed while the latest round still awaits settlement.
    pub(crate) fn is_active_round(&self) -> (r: Result<(), Error>)
        requires
            self.wf(),
        ensures
            r is Ok <==> !self.has_unfinished_round(),
            self.has_unfinished_round() ==> r == Err::<(), Error>(Error::IsAnNoFinishedRound),
    {
        if self.current_round_id >= 1 {
            let i = (self.current_round_id - 1) as usize;
            if !self.rounds[i].is_finished {
                return Err(Error::IsAnNoFinishedRound);
            }
        }
        Ok(())
    }

    /// Administrative function: admits a new administrator.
    pub fn add_admin(&mut self, caller_id: AccountId, contributor_id: AccountId) -> (r: Result<
        (),
        Error,
    >)
        requires
            old(self).wf(),
        ensures
            final(self).wf(),
            r is Err ==> *final(self) == *old(self),
            r == Err::<(), Error>(Error::AdministrativeFunction) <==> !old(self).is_admin(caller_id),
            r == Err::<(), Error>(Error::MemberAlreadyExists) <==> old(self).is_admin(caller_id)
                && old(self).role_of(contributor_id) is Some,
            r is Ok <==> old(self).is_admin(caller_id) && old(self).role_of(contributor_id) is None,
            r is Ok ==> final(self).members@ == old(self).members@.push(
                (contributor_id, Role::Admin),
            ) && final(self).contributors@ == old(self).contributors@ && final(self).rounds == old(self).rounds && final(self).current_round_id == old(self).current_round_id && final(self).min_elapsed_milliseconds == old(self).min_elapsed_milliseconds,
            r is Ok ==> forall|x: AccountId| #![auto]
                final(self).role_of(x) == if x == contributor_id {
                    Some(Role::Admin)
                } else {
                    old(self).role_of(x)
                },
            r is Ok ==> forall|x: AccountId| #![auto]
                final(self).record_of(x) == old(self).record_of(x),
    {
        if let Err(e) = self.is_caller_admin(caller_id) {
            return Err(e);
        }
        match find_index(&self.members, contributor_id) {
            Some(i) => {
                proof {
                    lemma_entry_index(self.members@, contributor_id);
                }
                Err(Error::MemberAlreadyExists)
            },
            None => {
                self.add_member(contributor_id, Role::Admin);
                Ok(())
            },
        }
    }

    /// Administrative function: removes a member; an administrator cannot
    /// remove itself, so the registry never runs out of administrators
    /// through this path.
    pub fn rem_admin(&mut self, caller_id: AccountId, contributor_id: AccountId) -> (r: Result<
        (),
        Error,
    >)
        requires
            old(self).wf(),
        ensures
            final(self).wf(),
            r is Err ==> *final(self) == *old(self),
            r == Err::<(), Error>(Error::AdministrativeFunction) <==> !old(self).is_admin(caller_id),
            r == Err::<(), Error>(Error::MemberNotExist) <==> old(self).is_admin(caller_id) && old(self).role_of(contributor_id) is None,
            r == Err::<(), Error>(Error::CannotRemoveYourself) <==> old(self).is_admin(caller_id)
                && old(self).role_of(contributor_id) is Some && caller_id == contributor_id,
            r is Ok <==> old(self).is_admin(caller_id) && old(self).role_of(contributor_id) is Some
                && caller_id != contributor_id,
            r is Ok ==> final(self).members@ == old(self).members@.remove(
                entry_index(old(self).members@, contributor_id),
            ) && final(self).contributors@ == (if old(self).record_of(contributor_id) is Some {
                old(self).contributors@.remove(
                    entry_index(old(self).contributors@, contributor_id),
                )
            } else {
                old(self).contributors@
            }) && final(self).rounds == old(self).rounds && final(self).current_round_id == old(self).current_round_id && final(self).min_elapsed_milliseconds == old(self).min_elapsed_milliseconds,
            r is Ok ==> forall|x: AccountId| #![auto]
                final(self).role_of(x) == if x == contributor_id {
                    None::<Role>
                } else {
                    old(self).role_of(x)
                },
            r is Ok ==> forall|x: AccountId| #![auto]
                final(self).record_of(x) == if x == contributor_id {
                    None::<Contributor>
                } else {
                    old(self).record_of(x)
                },
    {
        if let Err(e) = self.is_caller_admin(caller_id) {
            return Err(e);
        }
        match find_index(&self.members, contributor_id) {
            Some(i) => {
                proof {
                    lemma_entry_index(self.members@, contributor_id);
                }
                if caller_id == contributor_id {
                    return Err(Error::CannotRemoveYourself);
                }
                self.rem_member(contributor_id);
                Ok(())
            },
            None => Err(Error::MemberNotExist),
        }
    }

    /// Administrative function: admits a contributor; membership is frozen
    /// while a round is live.
    pub fn add_contributor(&mut self, caller_id: AccountId, contributor_id: AccountId) -> (r:
        Result<(), Error>)
        requires
            old(self).wf(),
        ensures
            final(self).wf(),
            r is Err ==> *final(self) == *old(self),
            r == Err::<(), Error>(Error::AdministrativeFunction) <==> !old(self).is_admin(caller_id),
            r == Err::<(), Error>(Error::IsAnNoFinishedRound) <==> old(self).is_admin(caller_id)
                && old(self).has_unfinished_round(),
            r == Err::<(), Error>(Error::MemberAlreadyExists) <==> old(self).is_admin(caller_id)
                && !old(self).has_unfinished_round() && old(self).role_of(contributor_id) is Some,
            r is Ok <==> old(self).is_admin(caller_id) && !old(self).has_unfinished_round() && old(self).role_of(contributor_id) is None,
            r is Ok ==> final(self).members@ == old(self).members@.push(
                (contributor_id, Role::Contributor),
            ) && final(self).contributors@ == old(self).contributors@.push(
                (contributor_id, Contributor { round_id: 0, reputation: 0, votes_submitted: 0 }),
            ) && final(self).rounds == old(self).rounds && final(self).current_round_id == old(self).current_round_id && final(self).min_elapsed_milliseconds == old(self).min_elapsed_milliseconds,
            r is Ok ==> forall|x: AccountId| #![auto]
                final(self).role_of(x) == if x == contributor_id {
                    Some(Role::Contributor)
                } else {
                    old(self).role_of(x)
                },
            r is Ok ==> forall|x: AccountId| #![auto]
                final(self).record_of(x) == if x == contributor_id {
                    Some(Contributor { round_id: 0, reputation: 0, votes_submitted: 0 })
                } else {
                    old(self).record_of(x)
                },
    {
        if let Err(e) = self.is_caller_admin(caller_id) {
            return Err(e);
        }
        if let Err(e) = self.is_active_round() {
            return Err(e);
        }
        match find_index(&self.members, contributor_id) {
            Some(i) => {
                proof {
                    lemma_entry_index(self.members@, contributor_id);
                }
                Err(Error::MemberAlreadyExists)
            },
            None => {
                self.add_member(contributor_id, Role::Contributor);
                Ok(())
            },
        }
    }

    /// Administrative function: removes a member and its contributor
    /// record; membership is frozen while a round is live.
    pub fn rem_contributor(&mut self, caller_id: AccountId, contributor_id: AccountId) -> (r:
        Result<(), Error>)
        requires
            old(self).wf(),
        ensures
            final(self).wf(),
            r is Err ==> *final(self) == *old(self),
            r == Err::<(), Error>(Error::AdministrativeFunction) <==> !old(self).is_admin(caller_id),
            r == Err::<(), Error>(Error::IsAnNoFinishedRound) <==> old(self).is_admin(caller_id)
                && old(self).has_unfinished_round(),
            r == Err::<(), Error>(Error::MemberNotExist) <==> old(self).is_admin(caller_id) && !old(self).has_unfinished_round() && old(self).role_of(contributor_id) is None,
            r is Ok <==> old(self).is_admin(caller_id) && !old(self).has_unfinished_round() && old(self).role_of(contributor_id) is Some,
            r is Ok ==> final(self).members@ == old(self).members@.remove(
                entry_index(old(self).members@, contributor_id),
            ) && final(self).contributors@ == (if old(self).record_of(contributor_id) is Some {
                old(self).contributors@.remove(
                    entry_index(old(self).contributors@, contributor_id),
                )
            } else {
                old(self).contributors@
            }) && final(self).rounds == old(self).rounds && final(self).current_round_id == old(self).current_round_id && final(self).min_elapsed_milliseconds == old(self).min_elapsed_milliseconds,
            r is Ok ==> forall|x: AccountId| #![auto]
                final(self).role_of(x) == if x == contributor_id {
                    None::<Role>
                } else {
                    old(self).role_of(x)
                },
            r is Ok ==> forall|x: AccountId| #![auto]
                final(self).record_of(x) == if x == contributor_id {
                    None::<Contributor>
                } else {
                    old(self).record_of(x)
                },
    {
        if let Err(e) = self.is_caller_admin(caller_id) {
            return Err(e);
        }
        if let Err(e) = self.is_active_round() {
            return Err(e);
        }
        match find_index(&self.members, contributor_id) {
            Some(i) => {
                proof {
                    lemma_entry_index(self.members@, contributor_id);
                }
                self.rem_member(contributor_id);
                Ok(())
            },
            None => Err(Error::MemberNotExist),
        }
    }

    /// Administrative function: sets the minimum duration for rounds yet
    /// to open.
    pub fn set_min_elapsed_milliseconds(&mut self, caller_id: AccountId, milliseconds: Timestamp)
        -> (r: Result<(), Error>)
        requires
            old(self).wf(),
        ensures
            final(self).wf(),
            r is Err ==> *final(self) == *old(self),
            r is Ok <==> old(self).is_admin(caller_id),
            !old(self).is_admin(caller_id) ==> r == Err::<(), Error>(Error::AdministrativeFunction),
            r is Ok ==> *final(self) == (Organization {
                min_elapsed_milliseconds: milliseconds,
                ..*old(self)
            }),
    {
        if let Err(e) = self.is_caller_admin(caller_id) {
            return Err(e);
        }
        let ghost o = *self;
        self.min_elapsed_milliseconds = milliseconds;
        proof {
            Self::lemma_wf_same_tables(o, *self);
        }
        Ok(())
    }

    /// The minimum duration a new round must be given.
    pub fn get_min_elapsed_milliseconds(&self) -> (t: Timestamp)
        ensures
            t == self.min_elapsed_milliseconds,
    {
        self.min_elapsed_milliseconds
    }
}

} // verus!
