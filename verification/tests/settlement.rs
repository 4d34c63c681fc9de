use organization::errors::Error;
use organization::organization::Organization;
use organization::types::Contributor;

const ADMIN: u64 = 1;
const A: u64 = 10;
const B: u64 = 11;
const C: u64 = 12;

const HOUR: u64 = 60 * 60 * 1000;

/// An organization with the given contributors, one round over `value`
/// already past its deadline, and each contributor holding the paired
/// reputation in that round.
fn org_with_reputations(value: u128, reputations: &[(u64, u32)]) -> Organization {
    let mut org = Organization::new(ADMIN, 1);
    for (account, _) in reputations {
        org.add_contributor(ADMIN, *account).unwrap();
    }
    org.open_round(ADMIN, "payout".to_string(), value, 10, HOUR, 0, u128::MAX, 1)
        .unwrap();
    for (i, (_, reputation)) in reputations.iter().enumerate() {
        org.contributors[i].1 = Contributor {
            round_id: 1,
            reputation: *reputation,
            votes_submitted: 2,
        };
    }
    org
}

#[test]
fn proportional_shares_and_tiered_mints() {
    // reputations 10, 5, 1 (total 16) over a fund of 1600
    let org = org_with_reputations(1600, &[(A, 10), (B, 5), (C, 1)]);
    let settlement = org.close_round(ADMIN, HOUR).unwrap();

    assert_eq!(settlement.round_id, 1);
    assert_eq!(settlement.transfers, vec![(A, 1000), (B, 500), (C, 100)]);
    // gold, silver, bronze: highest reputation first
    assert_eq!(settlement.mints, vec![A, B, C]);
    assert_eq!(settlement.total_reputation, 16);
    assert_eq!(settlement.total_votes, 6);
}

#[test]
fn shares_round_down_and_strand_the_remainder() {
    // total 7 over a fund of 100: shares floor to 57, 28, 14 (99 paid)
    let org = org_with_reputations(100, &[(A, 4), (B, 2), (C, 1)]);
    let settlement = org.close_round(ADMIN, HOUR).unwrap();
    assert_eq!(settlement.transfers, vec![(A, 57), (B, 28), (C, 14)]);
}

#[test]
fn mint_order_breaks_ties_towards_later_admission() {
    // equal top reputations: the later-admitted contributor takes gold,
    // as popping a stable ascending sort would
    let org = org_with_reputations(100, &[(A, 5), (B, 5), (C, 1)]);
    let settlement = org.close_round(ADMIN, HOUR).unwrap();
    assert_eq!(settlement.mints, vec![B, A, C]);
}

#[test]
fn fewer_contributors_mean_fewer_mints() {
    let org = org_with_reputations(100, &[(A, 3), (B, 2)]);
    let settlement = org.close_round(ADMIN, HOUR).unwrap();
    assert_eq!(settlement.transfers, vec![(A, 60), (B, 40)]);
    assert_eq!(settlement.mints, vec![A, B]);

    let org = org_with_reputations(100, &[(A, 3)]);
    let settlement = org.close_round(ADMIN, HOUR).unwrap();
    assert_eq!(settlement.transfers, vec![(A, 100)]);
    assert_eq!(settlement.mints, vec![A]);
}

#[test]
fn settling_without_contributors_pays_nobody() {
    let mut org = Organization::new(ADMIN, 1);
    org.open_round(ADMIN, "empty".to_string(), 100, 10, HOUR, 0, 1_000_000, 1)
        .unwrap();
    let settlement = org.close_round(ADMIN, HOUR).unwrap();
    assert!(settlement.transfers.is_empty());
    assert!(settlement.mints.is_empty());
    assert_eq!(settlement.total_reputation, 0);
    assert!(org.finish_round(ADMIN, HOUR).is_ok());
}

#[test]
fn untouched_contributors_settle_with_the_reset_record() {
    // records still tagged with round 0 count as freshly reset: each
    // takes part with reputation 1
    let mut org = Organization::new(ADMIN, 1);
    org.add_contributor(ADMIN, A).unwrap();
    org.add_contributor(ADMIN, B).unwrap();
    org.open_round(ADMIN, "idle".to_string(), 100, 10, HOUR, 0, 1_000_000, 1)
        .unwrap();
    let settlement = org.close_round(ADMIN, HOUR).unwrap();
    assert_eq!(settlement.total_reputation, 2);
    assert_eq!(settlement.total_votes, 0);
    assert_eq!(settlement.transfers, vec![(A, 50), (B, 50)]);
}

#[test]
fn share_overflow_is_refused_wholesale() {
    let org = org_with_reputations(u128::MAX / 2, &[(A, 1), (B, 3), (C, 1)]);
    // the second share would overflow: value * 3 > u128::MAX
    let r = org.close_round(ADMIN, HOUR);
    assert_eq!(r, Err(Error::MulOverflow(u128::MAX / 2, 3)));
    // nothing was mutated: the round is still open for a retry
    assert!(!org.rounds[0].is_finished);
}

#[test]
fn close_round_reports_the_totals() {
    let org = org_with_reputations(1600, &[(A, 10), (B, 5), (C, 1)]);
    let settlement = org.close_round(ADMIN, HOUR).unwrap();
    assert_eq!(settlement.total_votes, 6);
    assert_eq!(settlement.total_reputation, 16);
}

#[test]
fn settlement_atomicity_on_transfer_failure() {
    // the host's view of the world: account balances and minted awards
    let mut org = org_with_reputations(1600, &[(A, 10), (B, 5), (C, 1)]);
    let mut balances: Vec<(u64, u128)> = vec![(A, 0), (B, 0), (C, 0)];
    let snapshot = balances.clone();
    let mut minted: Vec<u64> = Vec::new();

    let settlement = org.close_round(ADMIN, HOUR).unwrap();

    // the host applies the transfers in order; the second one fails
    let mut failure: Option<Error> = None;
    for (i, (account, amount)) in settlement.transfers.iter().enumerate() {
        if i == 1 {
            failure = Some(Error::TransferFailed(*account, *amount));
            break;
        }
        let slot = balances.iter_mut().find(|b| b.0 == *account).unwrap();
        slot.1 += *amount;
    }
    assert_eq!(failure, Some(Error::TransferFailed(B, 500)));

    // the host's transactional rollback discards the partial payout and
    // it never reaches the mints or `finish_round`
    balances = snapshot.clone();
    assert!(minted.is_empty());

    // no transfer's balance change and no mint persists, and the round
    // remains unfinished
    assert_eq!(balances, snapshot);
    assert!(!org.rounds[0].is_finished);

    // a retry after the failure settles in full
    let settlement = org.close_round(ADMIN, HOUR).unwrap();
    for (account, amount) in settlement.transfers.iter() {
        let slot = balances.iter_mut().find(|b| b.0 == *account).unwrap();
        slot.1 += *amount;
    }
    for account in settlement.mints.iter() {
        minted.push(*account);
    }
    assert!(org.finish_round(ADMIN, HOUR).is_ok());
    assert_eq!(balances, vec![(A, 1000), (B, 500), (C, 100)]);
    assert_eq!(minted, vec![A, B, C]);
    assert!(org.rounds[0].is_finished);
}

#[test]
fn mint_failure_aborts_settlement() {
    let mut org = org_with_reputations(1600, &[(A, 10), (B, 5), (C, 1)]);
    let mut balances: Vec<(u64, u128)> = vec![(A, 0), (B, 0), (C, 0)];
    let snapshot = balances.clone();
    let mut minted: Vec<u64> = Vec::new();

    let settlement = org.close_round(ADMIN, HOUR).unwrap();
    for (account, amount) in settlement.transfers.iter() {
        let slot = balances.iter_mut().find(|b| b.0 == *account).unwrap();
        slot.1 += *amount;
    }
    // the first mint is refused by the token contract
    let mut failure: Option<Error> = None;
    for account in settlement.mints.iter() {
        failure = Some(Error::NftNotSent);
        let _ = account;
        break;
    }
    assert_eq!(failure, Some(Error::NftNotSent));

    // the host rolls back the transfers too and never finishes the round
    balances = snapshot.clone();
    minted.clear();
    assert_eq!(balances, snapshot);
    assert!(minted.is_empty());
    assert!(!org.rounds[0].is_finished);
}
