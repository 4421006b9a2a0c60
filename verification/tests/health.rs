use backpack_grid_bot::decimal::Dec;
use backpack_grid_bot::health::{HealthIssue, PauseReason, RuntimeHealth, ServiceState};

fn d(s: &str) -> Dec {
    let x: rust_decimal::Decimal = s.parse().unwrap();
    Dec { mantissa: x.mantissa(), scale: x.scale() }
}

#[test]
fn health_marks_success_and_error() {
    let mut health = RuntimeHealth::default();
    health.mark_error();
    assert_eq!(health.service_state, ServiceState::Degraded);
    assert_eq!(health.consecutive_errors, 1);

    health.mark_success(ServiceState::Active, vec![HealthIssue::SyntheticFillObserved], Some(d("2260.4")));
    assert_eq!(health.service_state, ServiceState::Active);
    assert_eq!(health.consecutive_errors, 0);
    assert_eq!(health.last_mid_price, Some(d("2260.4")));
    assert_eq!(health.issues, vec![HealthIssue::SyntheticFillObserved]);
}

#[test]
fn success_stamps_cycle_success_and_reconciliation_alike() {
    let mut health = RuntimeHealth::default();
    assert_eq!(health.last_cycle_unix_ms, None);
    health.mark_success(ServiceState::Starting, vec![], None);
    assert!(health.last_cycle_unix_ms.is_some());
    assert_eq!(health.last_success_unix_ms, health.last_cycle_unix_ms);
    assert_eq!(health.last_reconciliation_unix_ms, health.last_cycle_unix_ms);
}

#[test]
fn errors_count_up_and_pause_records_reason() {
    let mut health = RuntimeHealth::default();
    health.mark_error();
    health.mark_error();
    assert_eq!(health.consecutive_errors, 2);
    health.consecutive_errors = u32::MAX;
    health.mark_error();
    assert_eq!(health.consecutive_errors, u32::MAX);
    health.pause(PauseReason::KillSwitch, Some(d("2260.4")));
    assert_eq!(health.service_state, ServiceState::Paused);
    assert_eq!(health.pause_reason, Some(PauseReason::KillSwitch));
    assert_eq!(health.last_success_unix_ms, None);
}
