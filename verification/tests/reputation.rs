use organization::types::{Vote, VoteSign};
use organization::voting::get_reputation;

#[test]
fn get_reputation_test() {
    let vote1positive = Vote {
        sign: VoteSign::Positive,
        value: 1,
    };

    let vote1negative = Vote {
        sign: VoteSign::Negative,
        value: 1,
    };

    // get_reputation(receiver, emitter, vote) -> receiver reputation

    assert_eq!(get_reputation(1, 1, vote1positive), 2);
    assert_eq!(get_reputation(1, 10, vote1positive), 4);

    assert_eq!(get_reputation(1, 1, vote1negative), 1);
    assert_eq!(get_reputation(1, 10, vote1negative), 1);

    assert_eq!(get_reputation(10, 1, vote1positive), 11);
    assert_eq!(get_reputation(10, 10, vote1positive), 13);

    assert_eq!(get_reputation(10, 1, vote1negative), 9);
    assert_eq!(get_reputation(10, 10, vote1negative), 7);

    let vote10positive = Vote {
        sign: VoteSign::Positive,
        value: 10,
    };

    let vote10negative = Vote {
        sign: VoteSign::Negative,
        value: 10,
    };

    // get_reputation(receiver, emitter, vote) -> receiver reputation

    assert_eq!(get_reputation(1, 1, vote10positive), 11);
    assert_eq!(get_reputation(1, 10, vote10positive), 31);

    assert_eq!(get_reputation(1, 1, vote10negative), 1);
    assert_eq!(get_reputation(1, 10, vote10negative), 1);

    assert_eq!(get_reputation(10, 1, vote10positive), 20);
    assert_eq!(get_reputation(10, 10, vote10positive), 40);

    assert_eq!(get_reputation(10, 1, vote10negative), 1);
    assert_eq!(get_reputation(10, 10, vote10negative), 1);
}

#[test]
fn reputation_clamps_at_floor_and_ceiling() {
    let strong_negative = Vote {
        sign: VoteSign::Negative,
        value: 255,
    };
    // a heavy negative vote can never drive reputation below 1
    assert_eq!(get_reputation(1, u32::MAX, strong_negative), 1);
    assert_eq!(get_reputation(100, u32::MAX, strong_negative), 1);

    let strong_positive = Vote {
        sign: VoteSign::Positive,
        value: 255,
    };
    // a heavy positive vote saturates at the representable maximum
    assert_eq!(get_reputation(u32::MAX, u32::MAX, strong_positive), u32::MAX);
    assert_eq!(get_reputation(u32::MAX - 10, 4, strong_positive), u32::MAX);
    // and stays exact below the ceiling: 100 + 255 * 65535
    assert_eq!(get_reputation(100, u32::MAX, strong_positive), 100 + 255 * 65535);
}
