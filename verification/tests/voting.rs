use organization::errors::Error;
use organization::organization::Organization;
use organization::types::{Contributor, Vote, VoteSign};
use organization::voting::VoteCast;

const ADMIN: u64 = 1;
const A: u64 = 10;
const B: u64 = 11;
const C: u64 = 12;

const HOUR: u64 = 60 * 60 * 1000;

fn positive(value: u8) -> Vote {
    Vote { sign: VoteSign::Positive, value }
}

fn negative(value: u8) -> Vote {
    Vote { sign: VoteSign::Negative, value }
}

/// An organization with contributors A, B, C and one open round:
/// value 1000, quota 5 votes, deadline one hour from time zero.
fn open_org() -> Organization {
    let mut org = Organization::new(ADMIN, 1);
    org.add_contributor(ADMIN, A).unwrap();
    org.add_contributor(ADMIN, B).unwrap();
    org.add_contributor(ADMIN, C).unwrap();
    org.open_round(ADMIN, "round one".to_string(), 1000, 5, HOUR, 0, 1_000_000, 1)
        .unwrap();
    org
}

#[test]
fn submit_vote_test() {
    let mut org = open_org();

    // admin opened round(value=1000, max_votes=5, finish_at=+1h);
    // A casts a Positive vote of value 3 on B while A's reputation is 1
    let r = org.submit_vote(A, B, positive(3), 10);
    assert_eq!(r, Ok(VoteCast { round_id: 1, from: A, to: B, value: 3 }));

    // B's reputation becomes 1 + 3 * isqrt(1) = 4
    assert_eq!(org.get_reputation(B), Ok(4));
    assert_eq!(org.get_reputation(A), Ok(1));

    // a further vote of value 3 from A exceeds the remaining quota of 2
    let again = org.submit_vote(A, B, positive(3), 20);
    assert_eq!(again, Err(Error::ExceedsYourVoteLimit(2)));
    assert_eq!(org.get_reputation(B), Ok(4));

    // a vote of value 2 still fits the quota exactly
    assert!(org.submit_vote(A, C, positive(2), 30).is_ok());
    assert_eq!(org.get_reputation(C), Ok(3));
    // now even a single unit is too much
    assert_eq!(org.submit_vote(A, C, positive(1), 40), Err(Error::ExceedsYourVoteLimit(0)));
}

#[test]
fn vote_validation_errors() {
    let mut org = open_org();
    let before = org.contributors.clone();

    assert_eq!(org.submit_vote(ADMIN, A, positive(1), 10), Err(Error::OnlyContributorCanVote));
    assert_eq!(org.submit_vote(A, ADMIN, positive(1), 10), Err(Error::OnlyContributorCanVote));
    assert_eq!(org.submit_vote(99, A, positive(1), 10), Err(Error::OnlyContributorCanVote));
    assert_eq!(org.submit_vote(A, A, positive(1), 10), Err(Error::CannotVoteItself));
    assert_eq!(org.submit_vote(A, B, positive(6), 10), Err(Error::ExceedsVoteLimit(5)));
    // past the deadline there is no active round to vote in
    assert_eq!(org.submit_vote(A, B, positive(1), HOUR + 1), Err(Error::IsNoActiveRound));

    // a rejected vote leaves every record unchanged
    assert_eq!(org.contributors, before);
}

#[test]
fn vote_needs_an_open_round() {
    let mut org = Organization::new(ADMIN, 1);
    org.add_contributor(ADMIN, A).unwrap();
    org.add_contributor(ADMIN, B).unwrap();
    assert_eq!(org.submit_vote(A, B, positive(1), 0), Err(Error::IsNoActiveRound));
}

#[test]
fn negative_votes_floor_at_one() {
    let mut org = open_org();
    // B sits at the floor already; a negative vote cannot push below 1
    assert!(org.submit_vote(A, B, negative(3), 10).is_ok());
    assert_eq!(org.get_reputation(B), Ok(1));
}

#[test]
fn reputation_saturates_at_the_maximum() {
    let mut org = open_org();
    // a record already at the ceiling in the current round stays there
    org.contributors[1].1 = Contributor { round_id: 1, reputation: u32::MAX, votes_submitted: 0 };
    assert!(org.submit_vote(A, B, positive(5), 10).is_ok());
    assert_eq!(org.get_reputation(B), Ok(u32::MAX));
}

#[test]
fn quota_is_per_round() {
    let mut org = open_org();
    assert!(org.submit_vote(A, B, positive(5), 10).is_ok());
    assert_eq!(org.submit_vote(A, B, positive(1), 20), Err(Error::ExceedsYourVoteLimit(0)));

    // settle the round and open the next: the quota is fresh again
    org.close_round(ADMIN, HOUR).unwrap();
    org.finish_round(ADMIN, HOUR).unwrap();
    org.open_round(ADMIN, "round two".to_string(), 1000, 5, 3 * HOUR, HOUR, 1_000_000, 1)
        .unwrap();
    assert!(org.submit_vote(A, B, positive(5), HOUR + 10).is_ok());
    // and B's reputation started over from the reset value 1
    assert_eq!(org.get_reputation(B), Ok(1 + 5));
}

#[test]
fn lib_get_reputation_test() {
    let mut org = open_org();
    assert!(org.submit_vote(A, B, positive(3), 10).is_ok());

    assert_eq!(org.get_reputation(B), Ok(4));
    // an untouched contributor reads as freshly reset
    assert_eq!(org.get_reputation(C), Ok(1));
    // non-contributors have no reputation to ask about
    assert_eq!(org.get_reputation(ADMIN), Err(Error::YouAreNotContributor));
    assert_eq!(org.get_reputation(99), Err(Error::YouAreNotContributor));
}

#[test]
fn removed_contributor_loses_eligibility() {
    let mut org = open_org();
    assert!(org.submit_vote(A, B, positive(3), 10).is_ok());

    // settle the round so membership may change
    org.close_round(ADMIN, HOUR).unwrap();
    org.finish_round(ADMIN, HOUR).unwrap();
    org.rem_contributor(ADMIN, B).unwrap();

    assert_eq!(org.get_reputation(B), Err(Error::YouAreNotContributor));
    org.open_round(ADMIN, "round two".to_string(), 1000, 5, 3 * HOUR, HOUR, 1_000_000, 1)
        .unwrap();
    assert_eq!(org.submit_vote(B, A, positive(1), HOUR + 10), Err(Error::OnlyContributorCanVote));
    assert_eq!(org.submit_vote(A, B, positive(1), HOUR + 10), Err(Error::OnlyContributorCanVote));

    // a re-added contributor starts with a fresh record
    org.close_round(ADMIN, 3 * HOUR).unwrap();
    org.finish_round(ADMIN, 3 * HOUR).unwrap();
    org.add_contributor(ADMIN, B).unwrap();
    let record = org.contributors.iter().find(|e| e.0 == B).unwrap().1;
    assert_eq!(record, Contributor { round_id: 0, reputation: 0, votes_submitted: 0 });
}
