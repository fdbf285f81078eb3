//! Rounding to four decimal places, on values given in hundred-millionths
//! (1e-8) of a currency unit: the result is the nearest multiple of 10000,
//! ties away from zero.

use transaction_manager::amount::round_to_four_decimals;

#[test]
fn rounds_to_nearest_multiple() {
    assert_eq!(round_to_four_decimals(0), 0);
    assert_eq!(round_to_four_decimals(4999), 0);
    assert_eq!(round_to_four_decimals(5000), 10000);
    assert_eq!(round_to_four_decimals(15000), 20000);
    assert_eq!(round_to_four_decimals(-4999), 0);
    assert_eq!(round_to_four_decimals(-5000), -10000);
    assert_eq!(round_to_four_decimals(123456789), 123460000);
}

#[test]
fn rounding_is_idempotent() {
    for n in [
        0,
        1,
        4999,
        5000,
        9999,
        12340010,
        -1,
        -5000,
        -12345678,
        987654321,
    ] {
        let once = round_to_four_decimals(n);
        assert_eq!(round_to_four_decimals(once), once);
    }
}

#[test]
fn canonical_values_are_fixed_points() {
    for n in [0, 10000, -10000, 250000, 1230000] {
        assert_eq!(round_to_four_decimals(n), n);
    }
}
