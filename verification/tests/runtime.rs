use backpack_grid_bot::clock::unix_ms_from;
use backpack_grid_bot::runtime::{after_cycle, loop_budget};

#[test]
fn loop_budget_counts_the_cycles_asked_for() {
    assert_eq!(loop_budget(Some(3)), 3);
    assert_eq!(loop_budget(Some(0)), 0);
    assert_eq!(loop_budget(None), usize::MAX);
}

#[test]
fn the_loop_waits_only_between_cycles() {
    let mut remaining = loop_budget(Some(3));
    let mut waits = 0;
    let mut cycles = 0;
    while remaining > 0 {
        cycles += 1;
        let (left, wait) = after_cycle(remaining);
        if wait {
            waits += 1;
        }
        remaining = left;
    }
    assert_eq!(cycles, 3);
    assert_eq!(waits, 2);
    assert_eq!(after_cycle(1), (0, false));
}

#[test]
fn unix_ms_from_maps_a_missing_reading_to_zero() {
    assert_eq!(unix_ms_from(None), 0);
    assert_eq!(unix_ms_from(Some(1_700_000_000_000)), 1_700_000_000_000);
    assert_eq!(unix_ms_from(Some(u128::from(u64::MAX) + 1)), 0);
}
