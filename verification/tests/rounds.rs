use organization::errors::Error;
use organization::organization::Organization;
use organization::rounds::NewRound;

const ADMIN: u64 = 1;
const USER0: u64 = 10;

const HOUR: u64 = 60 * 60 * 1000;

#[test]
fn open_round_requires_admin() {
    let mut org = Organization::new(ADMIN, 1);
    let r = org.open_round(USER0, "r".to_string(), 100, 5, HOUR, 0, 1_000_000, 1);
    assert_eq!(r, Err(Error::AdministrativeFunction));
    assert!(org.rounds.is_empty());
}

#[test]
fn open_round_validates_parameters() {
    let mut org = Organization::new(ADMIN, 1);

    // the quota must allow at least one vote unit
    let r = org.open_round(ADMIN, "r".to_string(), 100, 0, HOUR, 0, 1_000_000, 1);
    assert_eq!(r, Err(Error::InvalidRoundParameter));

    // the deadline must lie at least the configured minimum ahead
    let r = org.open_round(ADMIN, "r".to_string(), 100, 5, HOUR - 1, 0, 1_000_000, 1);
    assert_eq!(r, Err(Error::InvalidRoundParameter));

    // the fund must leave the minimum balance behind
    let r = org.open_round(ADMIN, "r".to_string(), 1_000_000, 5, HOUR, 0, 1_000_000, 1);
    assert_eq!(r, Err(Error::InsufficientFunds));

    assert!(org.rounds.is_empty());
    assert_eq!(org.current_round_id, 0);
}

#[test]
fn open_round_reports_the_new_round() {
    let mut org = Organization::new(ADMIN, 1);
    let r = org.open_round(ADMIN, "first".to_string(), 100, 5, HOUR, 0, 1_000_000, 1);
    assert_eq!(
        r,
        Ok(NewRound { round_id: 1, value: 100, max_votes: 5, finish_at: HOUR })
    );
    assert_eq!(org.current_round_id, 1);
    assert_eq!(org.rounds.len(), 1);
    assert_eq!(org.rounds[0].name, "first");
    assert!(!org.rounds[0].is_finished);
}

#[test]
fn only_one_round_open_at_a_time() {
    let mut org = Organization::new(ADMIN, 1);
    assert!(org.open_round(ADMIN, "a".to_string(), 100, 5, HOUR, 0, 1_000_000, 1).is_ok());

    // opening while an unfinished round exists always fails
    let r = org.open_round(ADMIN, "b".to_string(), 100, 5, 3 * HOUR, HOUR, 1_000_000, 1);
    assert_eq!(r, Err(Error::IsAnNoFinishedRound));
    assert_eq!(org.current_round_id, 1);

    // after settlement a new round may open
    assert!(org.close_round(ADMIN, HOUR).is_ok());
    assert!(org.finish_round(ADMIN, HOUR).is_ok());
    let r = org.open_round(ADMIN, "b".to_string(), 100, 5, 3 * HOUR, HOUR, 1_000_000, 1);
    assert_eq!(
        r,
        Ok(NewRound { round_id: 2, value: 100, max_votes: 5, finish_at: 3 * HOUR })
    );
}

#[test]
fn close_round_lifecycle_errors() {
    let mut org = Organization::new(ADMIN, 1);

    // nothing to close yet
    assert_eq!(org.close_round(ADMIN, 0).err(), Some(Error::IsNoActiveRound));
    assert_eq!(org.finish_round(ADMIN, 0), Err(Error::IsNoActiveRound));

    assert!(org.open_round(ADMIN, "r".to_string(), 100, 5, HOUR, 0, 1_000_000, 1).is_ok());

    // the deadline has not been reached yet
    assert_eq!(org.close_round(ADMIN, HOUR - 1).err(), Some(Error::NotYetFinishedRound));
    assert_eq!(org.finish_round(ADMIN, HOUR - 1), Err(Error::NotYetFinishedRound));

    // only an admin may close
    assert_eq!(org.close_round(USER0, HOUR).err(), Some(Error::AdministrativeFunction));

    assert!(org.close_round(ADMIN, HOUR).is_ok());
    assert!(org.finish_round(ADMIN, HOUR).is_ok());
    assert!(org.rounds[0].is_finished);

    // closing an already-finished round always fails
    assert_eq!(org.close_round(ADMIN, HOUR).err(), Some(Error::IsNoActiveRound));
    assert_eq!(org.finish_round(ADMIN, HOUR), Err(Error::IsNoActiveRound));
}

#[test]
fn min_elapsed_configuration() {
    let mut org = Organization::new(ADMIN, 1);
    assert_eq!(org.get_min_elapsed_milliseconds(), HOUR);
    assert_eq!(
        org.set_min_elapsed_milliseconds(USER0, 5),
        Err(Error::AdministrativeFunction)
    );
    assert_eq!(org.set_min_elapsed_milliseconds(ADMIN, 5), Ok(()));
    assert_eq!(org.get_min_elapsed_milliseconds(), 5);

    // the new minimum gates the next round
    let r = org.open_round(ADMIN, "r".to_string(), 100, 5, 4, 0, 1_000_000, 1);
    assert_eq!(r, Err(Error::InvalidRoundParameter));
    assert!(org.open_round(ADMIN, "r".to_string(), 100, 5, 5, 0, 1_000_000, 1).is_ok());
}
