use organization::tools::sqrt_fast;

#[test]
fn get_sqrt_fast_test() {
    assert_eq!(sqrt_fast(1), 1); //      1
    assert_eq!(sqrt_fast(2), 1); //      1.41…
    assert_eq!(sqrt_fast(10), 3); //     3.16…
    assert_eq!(sqrt_fast(16), 4); //     4
    assert_eq!(sqrt_fast(100), 10); //  10
    assert_eq!(sqrt_fast(500), 22); //  22.36…
}

#[test]
fn sqrt_fast_zero() {
    assert_eq!(sqrt_fast(0), 0);
}

#[test]
fn sqrt_fast_around_squares() {
    assert_eq!(sqrt_fast(99), 9);
    assert_eq!(sqrt_fast(101), 10);
    assert_eq!(sqrt_fast(255), 15);
    assert_eq!(sqrt_fast(256), 16);
}

#[test]
fn sqrt_fast_large_values() {
    assert_eq!(sqrt_fast(u32::MAX as i64), 65535);
    assert_eq!(sqrt_fast(i64::MAX), 3037000499);
    assert_eq!(sqrt_fast(3037000499 * 3037000499), 3037000499);
    assert_eq!(sqrt_fast(3037000499 * 3037000499 - 1), 3037000498);
}
