use backpack_grid_bot::config::num_usize;

#[test]
fn counts_round_down_and_stay_at_least_one() {
    assert_eq!(num_usize("GRID_LEVELS", Some("2.9"), 7), Ok(2));
    assert_eq!(num_usize("GRID_LEVELS", Some("0.4"), 7), Ok(1));
    assert_eq!(num_usize("GRID_LEVELS", None, 7), Ok(7));
    assert_eq!(num_usize("GRID_LEVELS", None, 0), Ok(1));
}

#[test]
fn counts_from_zero_and_small_negative_values() {
    assert_eq!(num_usize("GRID_LEVELS", Some("-0"), 7), Ok(1));
    assert_eq!(num_usize("GRID_LEVELS", Some("-0.00"), 7), Ok(1));
    assert_eq!(num_usize("GRID_LEVELS", Some("-0.5"), 7), Ok(7));
    assert_eq!(num_usize("GRID_LEVELS", Some("-2.00"), 7), Ok(7));
}

#[test]
fn counts_refuse_text_that_is_no_decimal() {
    assert!(num_usize("GRID_LEVELS", Some("three"), 7).is_err());
}
