//! The service's health: its state, why it paused, the issues of the last
//! cycle and when cycles last ran.

use crate::clock::now_unix_ms;
use crate::decimal::Dec;
use vstd::prelude::*;

verus! {

#[derive(Debug, Clone, Copy, PartialEq, Eq, Structural)]
pub enum ServiceState {
    Starting,
    Active,
    Degraded,
    Paused,
}

#[derive(Debug, Clone, Copy, PartialEq, Eq, Structural)]
pub enum PauseReason {
    Manual,
    PriceOutOfRange,
    KillSwitch,
}

#[derive(Debug, Clone, Copy, PartialEq, Eq, Structural)]
pub enum HealthIssue {
    SyntheticFillObserved,
    OpenOrderMismatch,
    PositionMissing,
    MarkPriceMissing,
}

#[derive(Debug, PartialEq)]
pub struct RuntimeHealth {
    pub service_state: ServiceState,
    pub pause_reason: Option<PauseReason>,
    pub consecutive_errors: u32,
    pub last_cycle_unix_ms: Option<i64>,
    pub last_success_unix_ms: Option<i64>,
    pub last_reconciliation_unix_ms: Option<i64>,
    pub last_mid_price: Option<Dec>,
    pub issues: Vec<HealthIssue>,
}

/// A health record with its issues as a sequence.
pub struct RuntimeHealthView {
    pub service_state: ServiceState,
    pub pause_reason: Option<PauseReason>,
    pub consecutive_errors: u32,
    pub last_cycle_unix_ms: Option<i64>,
    pub last_success_unix_ms: Option<i64>,
    pub last_reconciliation_unix_ms: Option<i64>,
    pub last_mid_price: Option<Dec>,
    pub issues: Seq<HealthIssue>,
}

impl View for RuntimeHealth {
    type V = RuntimeHealthView;

    open spec fn view(&self) -> RuntimeHealthView {
        RuntimeHealthView {
            service_state: self.service_state,
            pause_reason: self.pause_reason,
            consecutive_errors: self.consecutive_errors,
            last_cycle_unix_ms: self.last_cycle_unix_ms,
            last_success_unix_ms: self.last_success_unix_ms,
            last_reconciliation_unix_ms: self.last_reconciliation_unix_ms,
            last_mid_price: self.last_mid_price,
            issues: self.issues@,
        }
    }
}

/// The health of a service that has not run a cycle yet.
pub open spec fn fresh_health(h: RuntimeHealthView) -> bool {
    &&& h.service_state == ServiceState::Starting
    &&& h.pause_reason is None
    &&& h.consecutive_errors == 0
    &&& h.last_cycle_unix_ms is None
    &&& h.last_success_unix_ms is None
    &&& h.last_reconciliation_unix_ms is None
    &&& h.last_mid_price is None
    &&& h.issues.len() == 0
}

/// The health after a successful cycle: the new state, issues and price, the
/// error count reset, and one clock reading for the cycle, the success and
/// the reconciliation; the pause reason kept.
pub open spec fn succeeded(
    old_h: RuntimeHealthView,
    new_h: RuntimeHealthView,
    state: ServiceState,
    issues: Seq<HealthIssue>,
    mid: Option<Dec>,
) -> bool {
    &&& new_h.service_state == state
    &&& new_h.pause_reason == old_h.pause_reason
    &&& new_h.consecutive_errors == 0
    &&& new_h.last_cycle_unix_ms is Some
    &&& new_h.last_success_unix_ms == new_h.last_cycle_unix_ms
    &&& new_h.last_reconciliation_unix_ms == new_h.last_cycle_unix_ms
    &&& new_h.last_mid_price == mid
    &&& new_h.issues == issues
}

/// The health after a pause: state paused for `reason`, the cycle stamped,
/// the price recorded, the rest kept.
pub open spec fn paused_health(old_h: RuntimeHealthView, new_h: RuntimeHealthView, reason: PauseReason, mid: Option<Dec>) -> bool {
    &&& new_h.service_state == ServiceState::Paused
    &&& new_h.pause_reason == Some(reason)
    &&& new_h.consecutive_errors == old_h.consecutive_errors
    &&& new_h.last_cycle_unix_ms is Some
    &&& new_h.last_success_unix_ms == old_h.last_success_unix_ms
    &&& new_h.last_reconciliation_unix_ms == old_h.last_reconciliation_unix_ms
    &&& new_h.last_mid_price == mid
    &&& new_h.issues == old_h.issues
}

impl Clone for RuntimeHealth {
    fn clone(&self) -> (r: Self)
        ensures
            r@ == self@,
    {
        let issues = self.issues.clone();
        assert(issues@ =~= self.issues@);
        RuntimeHealth {
            service_state: self.service_state,
            pause_reason: self.pause_reason,
            consecutive_errors: self.consecutive_errors,
            last_cycle_unix_ms: self.last_cycle_unix_ms,
            last_success_unix_ms: self.last_success_unix_ms,
            last_reconciliation_unix_ms: self.last_reconciliation_unix_ms,
            last_mid_price: self.last_mid_price,
            issues,
        }
    }
}

impl Default for RuntimeHealth {
    fn default() -> (r: Self)
        ensures
            fresh_health(r@),
    {
        RuntimeHealth {
            service_state: ServiceState::Starting,
            pause_reason: None,
            consecutive_errors: 0,
            last_cycle_unix_ms: None,
            last_success_unix_ms: None,
            last_reconciliation_unix_ms: None,
            last_mid_price: None,
            issues: Vec::new(),
        }
    }
}

impl RuntimeHealth {
    /// Records a successful cycle.
    pub fn mark_success(&mut self, service_state: ServiceState, issues: Vec<HealthIssue>, last_mid_price: Option<Dec>)
        ensures
            succeeded(old(self)@, final(self)@, service_state, issues@, last_mid_price),
    {
        let now = now_unix_ms();
        self.service_state = service_state;
        self.consecutive_errors = 0;
        self.last_cycle_unix_ms = Some(now);
        self.last_success_unix_ms = Some(now);
        self.last_reconciliation_unix_ms = Some(now);
        self.last_mid_price = last_mid_price;
        self.issues = issues;
    }

    /// Records a failed cycle: one more consecutive error (saturating), the
    /// cycle stamped, the state degraded; the rest kept.
    pub fn mark_error(&mut self)
        ensures
            final(self).consecutive_errors == (if old(self).consecutive_errors == u32::MAX {
                u32::MAX
            } else {
                (old(self).consecutive_errors + 1) as u32
            }),
            final(self).last_cycle_unix_ms is Some,
            final(self).service_state == ServiceState::Degraded,
            final(self).pause_reason == old(self).pause_reason,
            final(self).last_success_unix_ms == old(self).last_success_unix_ms,
            final(self).last_reconciliation_unix_ms == old(self).last_reconciliation_unix_ms,
            final(self).last_mid_price == old(self).last_mid_price,
            final(self).issues@ == old(self).issues@,
    {
        self.consecutive_errors = self.consecutive_errors.saturating_add(1);
        self.last_cycle_unix_ms = Some(now_unix_ms());
        self.service_state = ServiceState::Degraded;
    }

    /// Records a pause for `reason` at `last_mid_price`.
    pub fn pause(&mut self, reason: PauseReason, last_mid_price: Option<Dec>)
        ensures
            paused_health(old(self)@, final(self)@, reason, last_mid_price),
    {
        let now = now_unix_ms();
        self.service_state = ServiceState::Paused;
        self.pause_reason = Some(reason);
        self.last_cycle_unix_ms = Some(now);
        self.last_mid_price = last_mid_price;
    }
}

} // verus!
