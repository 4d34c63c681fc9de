//! The engine's global guarantees, each stated once over any well-formed
//! state and proved from the invariant that every operation preserves.

use vstd::prelude::*;

verus! {

use crate::organization::{effective_reputation, Organization};
use crate::rounds::{
    eff_reps, lemma_podium_in_range, podium, settlement_mints, settlement_transfers,
};
use crate::table::{entry_index, lemma_entry_index, lemma_find_entry_present};
use crate::types::{AccountId, Reputation};

/// Reputation, as any observer or the settlement sees it, is never below
/// 1 nor above the largest representable value, whatever sequence of
/// votes produced the record.
pub proof fn lemma_reputation_bounds(o: Organization, id: AccountId)
    requires
        o.wf(),
        o.record_of(id) is Some,
    ensures
        1 <= effective_reputation(o.record_of(id).unwrap(), o.current_round_id)
            <= Reputation::MAX,
{
    lemma_entry_index(o.contributors@, id);
    let i = entry_index(o.contributors@, id);
    assert(o.record_ok(o.contributors@[i].1));
}

/// A contributor's vote tally never exceeds the quota of the round it was
/// cast in: the stored record respects the round's `max_votes`.
pub proof fn lemma_votes_within_quota(o: Organization, id: AccountId)
    requires
        o.wf(),
        o.record_of(id) is Some,
        o.record_of(id).unwrap().round_id >= 1,
    ensures
        o.record_of(id).unwrap().votes_submitted <= o.rounds@[o.record_of(id).unwrap().round_id
            - 1].max_votes,
{
    lemma_entry_index(o.contributors@, id);
    let i = entry_index(o.contributors@, id);
    assert(o.record_ok(o.contributors@[i].1));
}

/// Only one round may be open at a time: any two unfinished rounds are
/// the same round, and it is the latest one.
pub proof fn lemma_single_unfinished_round(o: Organization, i: int, j: int)
    requires
        o.wf(),
        0 <= i < o.rounds@.len(),
        0 <= j < o.rounds@.len(),
        !o.rounds@[i].is_finished,
        !o.rounds@[j].is_finished,
    ensures
        i == j,
        i == o.rounds@.len() - 1,
{
    assert(i == o.rounds@.len() - 1) by {
        if i < o.rounds@.len() - 1 {
            assert(o.rounds@[i].is_finished);
        }
    }
    assert(j == o.rounds@.len() - 1) by {
        if j < o.rounds@.len() - 1 {
            assert(o.rounds@[j].is_finished);
        }
    }
}

/// An account without a contributor record is settled nothing: it is paid
/// no transfer and receives no award.  Removing a contributor removes its
/// record, so a removed contributor disappears from settlement.
pub proof fn lemma_removed_contributor_settles_nothing(o: Organization, id: AccountId)
    requires
        o.wf(),
        o.record_of(id) is None,
    ensures
        forall|k: int|
            0 <= k < settlement_transfers(o).len() ==> (#[trigger] settlement_transfers(
                o,
            )[k]).0 != id,
        !settlement_mints(o).contains(id),
{
    assert forall|k: int|
        0 <= k < o.contributors@.len() implies (#[trigger] o.contributors@[k]).0 != id by {
        if o.contributors@[k].0 == id {
            lemma_find_entry_present(o.contributors@, id, k);
        }
    }
    assert forall|k: int|
        0 <= k < settlement_transfers(o).len() implies (#[trigger] settlement_transfers(
        o,
    )[k]).0 != id by {
        assert(settlement_transfers(o)[k].0 == o.contributors@[k].0);
    }
    lemma_podium_in_range(eff_reps(o), 3);
    if settlement_mints(o).contains(id) {
        let t = choose|t: int|
            0 <= t < settlement_mints(o).len() && settlement_mints(o)[t] == id;
        let idx = podium(eff_reps(o), 3)[t];
        assert(settlement_mints(o)[t] == o.contributors@[idx].0);
        assert(false);
    }
}

} // verus!
