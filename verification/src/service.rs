//! One cycle of the grid service: pause checks, planning, the execution plan
//! and its dry run, reconciliation against the previous cycle, the events
//! and health it records, and the state kept for the next cycle.

use crate::adapter::client::ReadOnlyAccountSnapshot;
use crate::config::AppConfig;
use crate::state::{empty_state, newest_first, InMemoryStateStore, RuntimeState, RuntimeStateView};
use crate::planner::{config_ok, config_wf, grid_spec, input_bound, plan_spec, planner_fits, position_ok, select_spec, GridPlanner};
use crate::precision::{flip_epsilon_spec, order_precision_spec};
use crate::reconcile::{
    diff_matches, fill_inputs_fit, inferred_fill_spec, orders_in_range, ReconcileEngine, ReconcileSnapshot,
};
use crate::execution::{
    clone_existing, executed_matches, existing_ok, intent_ok, plan_matches, DryRunExecutionAdapter, ExecutionEngine,
    ExistingOrder,
};
use crate::decimal::{abs_int, pow10, safe_limit, unit, within};
use crate::domain::GridMode;
use crate::decimal::{dec_normalize, dec_to_string, lemma_normalized_of, normalized_of, text_of, Dec};
use crate::domain::{GridLevel, OrderIntentView, PlannerOutput, Position, RiskReason};
use crate::events::{bare_event, event_views, RuntimeEvent, RuntimeEventKind, RuntimeEventView};
use crate::execution::{existing_views, ExecutedPlan, ExecutionPlan, ExistingOrderView};
use crate::health::{HealthIssue, PauseReason, RuntimeHealth, RuntimeHealthView, ServiceState};
use crate::planner::intent_views;
use crate::reconcile::{
    fill_view, lemma_missing_candidates_from, missing_candidates, snapshot_size, ReconcileOutcome,
};
use crate::text::{fraction_digits, fraction_len, lemma_fraction_len_of_shape};
use vstd::prelude::*;
use vstd::string::StringExecFns;

verus! {

pub open spec fn state_name(s: ServiceState) -> Seq<char> {
    match s {
        ServiceState::Starting => "Starting"@,
        ServiceState::Active => "Active"@,
        ServiceState::Degraded => "Degraded"@,
        ServiceState::Paused => "Paused"@,
    }
}

pub open spec fn reason_name(r: RiskReason) -> Seq<char> {
    match r {
        RiskReason::KillSwitchEnabled => "KillSwitchEnabled"@,
        RiskReason::QtyMustBePositive => "QtyMustBePositive"@,
        RiskReason::ShortOnlyLongFlipBlocked => "ShortOnlyLongFlipBlocked"@,
        RiskReason::MaxPositionBreached => "MaxPositionBreached"@,
    }
}

pub open spec fn state_change_text(from: ServiceState, to: ServiceState) -> Seq<char> {
    "service state changed from "@ + state_name(from) + " to "@ + state_name(to)
}

pub open spec fn pause_text(reason: PauseReason, mid: Dec) -> Seq<char> {
    match reason {
        PauseReason::KillSwitch => "grid paused by kill switch"@,
        PauseReason::PriceOutOfRange => "grid paused: mark price "@ + text_of(mid) + " out of configured range"@,
        PauseReason::Manual => "grid paused manually"@,
    }
}

/// Why the service must not plan at `mid`: the kill switch first, then a
/// price outside the configured range.
pub open spec fn pause_reason_spec(c: AppConfig, mid: Dec) -> Option<PauseReason> {
    if c.kill_switch {
        Some(PauseReason::KillSwitch)
    } else if (c.grid_min_price matches Some(m) && mid@ < m@) || (c.grid_max_price matches Some(m) && mid@ > m@) {
        Some(PauseReason::PriceOutOfRange)
    } else {
        None
    }
}

/// Desired and exchange orders disagree.
pub open spec fn mismatch_spec(rec: ReconcileOutcome) -> bool {
    rec.diff.missing_on_exchange@.len() > 0 || rec.diff.unexpected_on_exchange@.len() > 0
}

/// Degraded on a mismatch, starting while there is nothing to do, else active.
pub open spec fn service_state_spec(exec: ExecutionPlan, rec: ReconcileOutcome) -> ServiceState {
    if mismatch_spec(rec) {
        ServiceState::Degraded
    } else if exec.place@.len() == 0 && exec.cancel@.len() == 0 && exec.keep@.len() == 0 {
        ServiceState::Starting
    } else {
        ServiceState::Active
    }
}

/// The service state of a cycle: degraded exactly when an order is missing
/// on the exchange or an exchange order is unexpected; otherwise starting
/// exactly when there is nothing to place, cancel or keep, and active as soon
/// as there is one order to place, cancel or keep.
pub proof fn lemma_service_state_cases(exec: ExecutionPlan, rec: ReconcileOutcome)
    ensures
        (service_state_spec(exec, rec) == ServiceState::Degraded) == (rec.diff.missing_on_exchange@.len() > 0
            || rec.diff.unexpected_on_exchange@.len() > 0),
        rec.diff.missing_on_exchange@.len() == 0 && rec.diff.unexpected_on_exchange@.len() == 0 ==> {
            &&& (service_state_spec(exec, rec) == ServiceState::Starting) == (exec.place@.len() == 0
                && exec.cancel@.len() == 0 && exec.keep@.len() == 0)
            &&& (service_state_spec(exec, rec) == ServiceState::Active) == (exec.place@.len() > 0
                || exec.cancel@.len() > 0 || exec.keep@.len() > 0)
        },
{
}

pub open spec fn issue_if(b: bool, i: HealthIssue) -> Seq<HealthIssue> {
    if b {
        seq![i]
    } else {
        Seq::empty()
    }
}

/// The issues of a cycle, in this order: a synthetic fill, a mismatch, a
/// position without symbol, a mark price not above zero.
pub open spec fn health_issues_spec(mid: Dec, position: Position, rec: ReconcileOutcome) -> Seq<HealthIssue> {
    issue_if(rec.synthetic_fill is Some, HealthIssue::SyntheticFillObserved) + issue_if(
        mismatch_spec(rec),
        HealthIssue::OpenOrderMismatch,
    ) + issue_if(position.symbol@.len() == 0, HealthIssue::PositionMissing) + issue_if(
        mid@ <= 0,
        HealthIssue::MarkPriceMissing,
    )
}

/// The health a cycle leaves: its state, issues and price, no pause, no
/// errors, one clock reading for cycle, success and reconciliation.
pub open spec fn cycle_health(h: RuntimeHealthView, state: ServiceState, issues: Seq<HealthIssue>, mid: Dec) -> bool {
    &&& h.service_state == state
    &&& h.pause_reason is None
    &&& h.consecutive_errors == 0
    &&& h.last_cycle_unix_ms is Some
    &&& h.last_success_unix_ms == h.last_cycle_unix_ms
    &&& h.last_reconciliation_unix_ms == h.last_cycle_unix_ms
    &&& h.last_mid_price == Some(mid)
    &&& h.issues == issues
}

/// The health a pause leaves: paused for `reason`, nothing else recorded but
/// the clock reading and the price.
pub open spec fn pause_health(h: RuntimeHealthView, reason: PauseReason, mid: Dec) -> bool {
    &&& h.service_state == ServiceState::Paused
    &&& h.pause_reason == Some(reason)
    &&& h.consecutive_errors == 0
    &&& h.last_cycle_unix_ms is Some
    &&& h.last_success_unix_ms is None
    &&& h.last_reconciliation_unix_ms is None
    &&& h.last_mid_price == Some(mid)
    &&& h.issues.len() == 0
}

pub open spec fn state_changed_view(to: ServiceState, message: Seq<char>) -> RuntimeEventView {
    RuntimeEventView {
        service_state: Some(to),
        ..bare_event(RuntimeEventKind::ServiceStateChanged, message, None)
    }
}

/// The state-change event, when the state changes.
pub open spec fn change_events(from: ServiceState, to: ServiceState) -> Seq<RuntimeEventView> {
    if from != to {
        seq![state_changed_view(to, state_change_text(from, to))]
    } else {
        Seq::empty()
    }
}

pub open spec fn order_event(kind: RuntimeEventKind, o: OrderIntentView, mid: Dec, message: Seq<char>) -> RuntimeEventView {
    RuntimeEventView { order: Some(o), ..bare_event(kind, message, Some(mid)) }
}

pub open spec fn place_events(orders: Seq<OrderIntentView>, mid: Dec) -> Seq<RuntimeEventView> {
    orders.map_values(
        |o: OrderIntentView| order_event(RuntimeEventKind::OrderPlanned, o, mid, "planned order "@ + o.client_order_id),
    )
}

pub open spec fn existing_events(
    orders: Seq<ExistingOrderView>,
    kind: RuntimeEventKind,
    label: Seq<char>,
    mid: Dec,
) -> Seq<RuntimeEventView> {
    orders.map_values(|o: ExistingOrderView| order_event(kind, o.intent, mid, label + o.client_order_id))
}

pub open spec fn executed_events(executed: Option<ExecutedPlan>, mid: Dec) -> Seq<RuntimeEventView> {
    match executed {
        Some(e) => existing_events(
            existing_views(e.placed@),
            RuntimeEventKind::OrderPlanned,
            "dry-run placed order "@,
            mid,
        ),
        None => Seq::empty(),
    }
}

pub open spec fn rejected_events(rejected: Seq<(GridLevel, RiskReason)>, mid: Dec) -> Seq<RuntimeEventView> {
    rejected.map_values(
        |p: (GridLevel, RiskReason)|
            RuntimeEventView {
                level: Some(p.0),
                ..bare_event(
                    RuntimeEventKind::PlannerRejectedLevel,
                    "planner rejected level "@ + reason_name(p.1),
                    Some(mid),
                )
            },
    )
}

pub open spec fn fill_events(rec: ReconcileOutcome, mid: Dec) -> Seq<RuntimeEventView> {
    match fill_view(rec.synthetic_fill) {
        Some(f) => seq![
            RuntimeEventView {
                fill: Some(f),
                ..bare_event(
                    RuntimeEventKind::SyntheticFillInferred,
                    "synthetic fill inferred during reconciliation"@,
                    Some(mid),
                )
            },
        ],
        None => Seq::empty(),
    }
}

pub open spec fn mismatch_events(rec: ReconcileOutcome, mid: Dec) -> Seq<RuntimeEventView> {
    if mismatch_spec(rec) {
        seq![
            RuntimeEventView {
                matched_orders: Some(rec.diff.matched),
                ..bare_event(
                    RuntimeEventKind::ReconciliationMismatch,
                    "desired orders and exchange state diverged"@,
                    Some(mid),
                )
            },
        ]
    } else {
        Seq::empty()
    }
}

/// The events of a planned cycle, in order: the state change, the planned,
/// cancelled and kept orders, the dry-run placements, the rejected levels,
/// the inferred fill and the mismatch.
pub open spec fn runtime_events_spec(
    rejected: Seq<(GridLevel, RiskReason)>,
    exec: ExecutionPlan,
    executed: Option<ExecutedPlan>,
    rec: ReconcileOutcome,
    mid: Dec,
    previous: ServiceState,
) -> Seq<RuntimeEventView> {
    change_events(previous, service_state_spec(exec, rec)) + place_events(intent_views(exec.place@), mid)
        + existing_events(existing_views(exec.cancel@), RuntimeEventKind::OrderCancelled, "cancel order "@, mid)
        + existing_events(existing_views(exec.keep@), RuntimeEventKind::OrderRetained, "keep order "@, mid)
        + executed_events(executed, mid) + rejected_events(rejected, mid) + fill_events(rec, mid)
        + mismatch_events(rec, mid)
}

/// The reconciliation epsilon: one unit three places below the order size's precision.
pub open spec fn qty_epsilon_spec(order_size: Dec) -> Dec {
    Dec { mantissa: 1, scale: (fraction_len(text_of(normalized_of(order_size))) + 3) as u32 }
}

fn state_label(s: ServiceState) -> (r: &'static str)
    ensures
        r@ == state_name(s),
{
    proof {
        reveal_strlit("Starting");
        reveal_strlit("Active");
        reveal_strlit("Degraded");
        reveal_strlit("Paused");
    }
    match s {
        ServiceState::Starting => "Starting",
        ServiceState::Active => "Active",
        ServiceState::Degraded => "Degraded",
        ServiceState::Paused => "Paused",
    }
}

fn reason_label(r: RiskReason) -> (s: &'static str)
    ensures
        s@ == reason_name(r),
{
    proof {
        reveal_strlit("KillSwitchEnabled");
        reveal_strlit("QtyMustBePositive");
        reveal_strlit("ShortOnlyLongFlipBlocked");
        reveal_strlit("MaxPositionBreached");
    }
    match r {
        RiskReason::KillSwitchEnabled => "KillSwitchEnabled",
        RiskReason::QtyMustBePositive => "QtyMustBePositive",
        RiskReason::ShortOnlyLongFlipBlocked => "ShortOnlyLongFlipBlocked",
        RiskReason::MaxPositionBreached => "MaxPositionBreached",
    }
}

fn joined(head: &str, tail: &str) -> (r: String)
    ensures
        r@ == head@ + tail@,
{
    let mut s = String::from_str(head);
    s.append(tail);
    s
}

fn state_change_message(from: ServiceState, to: ServiceState) -> (r: String)
    ensures
        r@ == state_change_text(from, to),
{
    let mut s = String::from_str("service state changed from ");
    s.append(state_label(from));
    s.append(" to ");
    s.append(state_label(to));
    s
}

/// The inputs a cycle runs on: the price and position within the bounds the
/// planner computes with, the exchange orders within those reconciliation
/// computes with, and in short-only mode with a short an order size of at
/// least `10^-16` (`10^12` in units of `10^-28`).
pub open spec fn cycle_inputs_ok(c: AppConfig, mid: Dec, position: Position, orders: Seq<ExistingOrder>) -> bool {
    &&& within(mid, input_bound())
    &&& within(position.size, input_bound())
    &&& (c.grid_mode == GridMode::ShortOnly && position.size@ < 0 ==> abs_int(c.order_size@) >= 1000000000000)
    &&& orders_in_range(orders)
}

/// The message of a pause for `reason` at `mid_price`.
pub fn pause_reason_message(reason: PauseReason, mid_price: Dec) -> (r: String)
    requires
        mid_price.wf(),
    ensures
        r@ == pause_text(reason, mid_price),
{
    match reason {
        PauseReason::KillSwitch => String::from_str("grid paused by kill switch"),
        PauseReason::PriceOutOfRange => {
            let mut s = String::from_str("grid paused: mark price ");
            s.append(dec_to_string(mid_price).as_str());
            s.append(" out of configured range");
            s
        },
        PauseReason::Manual => String::from_str("grid paused manually"),
    }
}

/// One unit three decimal places below the precision of the order size, the
/// precision read off the normalized size's text.
pub fn qty_epsilon(order_size: &Dec) -> (r: Dec)
    requires
        order_size.wf(),
        normalized_of(*order_size).scale <= 25,
    ensures
        r == qty_epsilon_spec(*order_size),
        r.wf(),
        r.scale == normalized_of(*order_size).scale + 3,
{
    proof {
        lemma_normalized_of(*order_size);
    }
    let text = dec_to_string(dec_normalize(*order_size));
    proof {
        lemma_fraction_len_of_shape(text@, normalized_of(*order_size).scale as nat);
    }
    let decimals = fraction_digits(text.as_str());
    Dec::new(1, (decimals + 3) as u32)
}

/// Degraded on a mismatch, starting while there is nothing to do, else active.
pub fn derive_service_state(execution: &ExecutionPlan, reconciliation: &ReconcileOutcome) -> (r: ServiceState)
    ensures
        r == service_state_spec(*execution, *reconciliation),
{
    if reconciliation.diff.missing_on_exchange.len() > 0 || reconciliation.diff.unexpected_on_exchange.len() > 0 {
        ServiceState::Degraded
    } else if execution.place.len() == 0 && execution.cancel.len() == 0 && execution.keep.len() == 0 {
        ServiceState::Starting
    } else {
        ServiceState::Active
    }
}

/// The health a planned cycle leaves.
pub fn build_runtime_health(
    mid_price: Dec,
    current_position: &Position,
    execution: &ExecutionPlan,
    reconciliation: &ReconcileOutcome,
) -> (r: RuntimeHealth)
    requires
        mid_price.wf(),
    ensures
        cycle_health(
            r@,
            service_state_spec(*execution, *reconciliation),
            health_issues_spec(mid_price, *current_position, *reconciliation),
            mid_price,
        ),
{
    let mut issues: Vec<HealthIssue> = Vec::new();
    if reconciliation.synthetic_fill.is_some() {
        issues.push(HealthIssue::SyntheticFillObserved);
    }
    let ghost first = issues@;
    if reconciliation.diff.missing_on_exchange.len() > 0 || reconciliation.diff.unexpected_on_exchange.len() > 0 {
        issues.push(HealthIssue::OpenOrderMismatch);
    }
    let ghost second = issues@;
    if current_position.symbol.unicode_len() == 0 {
        issues.push(HealthIssue::PositionMissing);
    }
    let ghost third = issues@;
    if mid_price.at_most(&Dec::zero()) {
        issues.push(HealthIssue::MarkPriceMissing);
    }
    assert(issues@ =~= health_issues_spec(mid_price, *current_position, *reconciliation));
    let service_state = derive_service_state(execution, reconciliation);
    let mut health = RuntimeHealth::default();
    health.mark_success(service_state, issues, Some(mid_price));
    health
}

fn push_place_events(events: &mut Vec<RuntimeEvent>, orders: &Vec<crate::domain::OrderIntent>, mid_price: Dec)
    ensures
        event_views(final(events)@) == event_views(old(events)@) + place_events(intent_views(orders@), mid_price),
{
    let ghost start = event_views(events@);
    let ghost part = place_events(intent_views(orders@), mid_price);
    proof {
        reveal_strlit("planned order ");
    }
    let mut i: usize = 0;
    assert(part.take(0) =~= Seq::<RuntimeEventView>::empty());
    assert(start + part.take(0) =~= start);
    while i < orders.len()
        invariant
            i <= orders@.len(),
            part == place_events(intent_views(orders@), mid_price),
            event_views(events@) == start + part.take(i as int),
        decreases orders@.len() - i,
    {
        let order = &orders[i];
        let message = joined("planned order ", order.client_order_id.as_str());
        let event = RuntimeEvent::order_planned(
            RuntimeEventKind::OrderPlanned,
            order.clone(),
            Some(mid_price),
            message.as_str(),
        );
        let ghost before = events@;
        events.push(event);
        assert(event_views(events@) =~= event_views(before).push(event@));
        assert(part.take(i + 1) =~= part.take(i as int).push(part[i as int]));
        i = i + 1;
    }
    assert(part.take(orders@.len() as int) =~= part);
}

fn push_existing_events(
    events: &mut Vec<RuntimeEvent>,
    orders: &Vec<crate::execution::ExistingOrder>,
    kind: RuntimeEventKind,
    label: &str,
    mid_price: Dec,
)
    ensures
        event_views(final(events)@) == event_views(old(events)@) + existing_events(
            existing_views(orders@),
            kind,
            label@,
            mid_price,
        ),
{
    let ghost start = event_views(events@);
    let ghost part = existing_events(existing_views(orders@), kind, label@, mid_price);
    let mut i: usize = 0;
    assert(start + part.take(0) =~= start);
    while i < orders.len()
        invariant
            i <= orders@.len(),
            part == existing_events(existing_views(orders@), kind, label@, mid_price),
            event_views(events@) == start + part.take(i as int),
        decreases orders@.len() - i,
    {
        let order = &orders[i];
        let message = joined(label, order.client_order_id.as_str());
        let event = RuntimeEvent::order_planned(kind, order.intent.clone(), Some(mid_price), message.as_str());
        let ghost before = events@;
        events.push(event);
        assert(event_views(events@) =~= event_views(before).push(event@));
        assert(part.take(i + 1) =~= part.take(i as int).push(part[i as int]));
        i = i + 1;
    }
    assert(part.take(orders@.len() as int) =~= part);
}

fn push_rejected_events(events: &mut Vec<RuntimeEvent>, rejected: &Vec<(GridLevel, RiskReason)>, mid_price: Dec)
    ensures
        event_views(final(events)@) == event_views(old(events)@) + rejected_events(rejected@, mid_price),
{
    let ghost start = event_views(events@);
    let ghost part = rejected_events(rejected@, mid_price);
    proof {
        reveal_strlit("planner rejected level ");
    }
    let mut i: usize = 0;
    assert(start + part.take(0) =~= start);
    while i < rejected.len()
        invariant
            i <= rejected@.len(),
            part == rejected_events(rejected@, mid_price),
            event_views(events@) == start + part.take(i as int),
        decreases rejected@.len() - i,
    {
        let (level, reason) = rejected[i];
        let message = joined("planner rejected level ", reason_label(reason));
        let event = RuntimeEvent::planner_rejected(level, message.as_str(), Some(mid_price));
        let ghost before = events@;
        events.push(event);
        assert(event_views(events@) =~= event_views(before).push(event@));
        assert(part.take(i + 1) =~= part.take(i as int).push(part[i as int]));
        i = i + 1;
    }
    assert(part.take(rejected@.len() as int) =~= part);
}

/// The events of a planned cycle.
pub fn build_runtime_events(
    planner: &PlannerOutput,
    execution: &ExecutionPlan,
    executed: Option<&ExecutedPlan>,
    reconciliation: &ReconcileOutcome,
    mid_price: Dec,
    previous_service_state: ServiceState,
) -> (r: Vec<RuntimeEvent>)
    ensures
        event_views(r@) == runtime_events_spec(
            planner.rejected_levels@,
            *execution,
            match executed {
                Some(e) => Some(*e),
                None => None,
            },
            *reconciliation,
            mid_price,
            previous_service_state,
        ),
{
    let mut events: Vec<RuntimeEvent> = Vec::new();
    let next_service_state = derive_service_state(execution, reconciliation);
    if next_service_state != previous_service_state {
        let message = state_change_message(previous_service_state, next_service_state);
        events.push(RuntimeEvent::service_state_changed(next_service_state, message.as_str()));
    }
    let ghost first = event_views(events@);
    assert(first =~= change_events(previous_service_state, next_service_state));
    push_place_events(&mut events, &execution.place, mid_price);
    push_existing_events(&mut events, &execution.cancel, RuntimeEventKind::OrderCancelled, "cancel order ", mid_price);
    push_existing_events(&mut events, &execution.keep, RuntimeEventKind::OrderRetained, "keep order ", mid_price);
    match executed {
        Some(e) => {
            push_existing_events(
                &mut events,
                &e.placed,
                RuntimeEventKind::OrderPlanned,
                "dry-run placed order ",
                mid_price,
            );
        },
        None => {},
    }
    let ghost after_executed = event_views(events@);
    push_rejected_events(&mut events, &planner.rejected_levels, mid_price);
    let ghost after_rejected = event_views(events@);
    match &reconciliation.synthetic_fill {
        Some(fill) => {
            events.push(RuntimeEvent::synthetic_fill(fill.clone(), Some(mid_price)));
        },
        None => {},
    }
    let ghost after_fill = event_views(events@);
    assert(after_fill =~= after_rejected + fill_events(*reconciliation, mid_price));
    if reconciliation.diff.missing_on_exchange.len() > 0 || reconciliation.diff.unexpected_on_exchange.len() > 0 {
        events.push(RuntimeEvent::mismatch(reconciliation.diff.matched, Some(mid_price)));
    }
    assert(event_views(events@) =~= after_fill + mismatch_events(*reconciliation, mid_price));
    events
}

/// With the kill switch on, every cycle pauses for it, whatever the price.
pub proof fn lemma_kill_switch_always_pauses(c: AppConfig, mid: Dec)
    requires
        c.kill_switch,
    ensures
        pause_reason_spec(c, mid) == Some(PauseReason::KillSwitch),
{
}

/// With the kill switch off, a price outside the configured band pauses the
/// cycle, and a price inside it never does.
pub proof fn lemma_price_band_pauses(c: AppConfig, mid: Dec)
    requires
        !c.kill_switch,
    ensures
        ((c.grid_min_price matches Some(m) && mid@ < m@) || (c.grid_max_price matches Some(m) && mid@ > m@))
            <==> pause_reason_spec(c, mid) == Some(PauseReason::PriceOutOfRange),
        pause_reason_spec(c, mid) != Some(PauseReason::Manual),
{
}

#[derive(Debug, PartialEq)]
pub struct ServiceCycleOutput {
    pub planner: PlannerOutput,
    pub execution: ExecutionPlan,
    pub executed: Option<ExecutedPlan>,
    pub reconciliation: ReconcileOutcome,
    pub events: Vec<RuntimeEvent>,
    pub state: RuntimeState,
}

/// `items` recorded one after another, each as the newest.
pub open spec fn pushed_all<T>(s: Seq<T>, items: Seq<T>, limit: usize) -> Seq<T>
    decreases items.len(),
{
    if items.len() == 0 {
        s
    } else {
        newest_first(pushed_all(s, items.drop_last(), limit), items.last(), limit)
    }
}

/// The state at the start of a cycle: the price, position and exchange
/// orders it was given.
pub open spec fn cycle_start(
    prev: RuntimeStateView,
    mid: Dec,
    position: Position,
    orders: Seq<ExistingOrderView>,
) -> RuntimeStateView {
    RuntimeStateView { working_orders: orders, position: Some(position), last_mid_price: Some(mid), ..prev }
}

/// The stored orders and position stay within the magnitudes the
/// reconciliation computes with.
/// What a planned cycle computes stays representable, without the
/// planner's magnitude range: the plan at `mid`, and the fill inferred from
/// the kept position and orders to the current ones.
pub open spec fn cycle_fits(
    c: AppConfig,
    planner_eps: Dec,
    state: RuntimeStateView,
    mid: Dec,
    position: Position,
    orders: Seq<ExistingOrder>,
) -> bool {
    &&& mid.wf()
    &&& position.size.wf()
    &&& existing_ok(orders)
    &&& planner_fits(c, planner_eps, mid, Some(&position))
    &&& fill_inputs_fit(stored_size(state), position.size, state.working_orders, existing_views(orders))
}

/// The inputs of a planned cycle within the magnitudes the planner and the
/// reconciliation compute with, and the kept state within them too.
pub open spec fn cycle_in_range(
    c: AppConfig,
    state: RuntimeStateView,
    mid: Dec,
    position: Position,
    orders: Seq<ExistingOrder>,
) -> bool {
    &&& config_ok(c)
    &&& stored_in_range(state)
    &&& within(mid, input_bound())
    &&& position_ok(c, Some(&position))
    &&& orders_in_range(orders)
}

pub open spec fn stored_in_range(s: RuntimeStateView) -> bool {
    &&& forall|k: int|
        0 <= k < s.working_orders.len() ==> (#[trigger] s.working_orders[k]).intent.price.wf() && within(
            s.working_orders[k].intent.qty,
            input_bound(),
        )
    &&& (s.position matches Some(p) ==> within(p.size, input_bound()))
}

pub open spec fn stored_size(s: RuntimeStateView) -> Dec {
    match s.position {
        Some(p) => p.size,
        None => Dec::zero_spec(),
    }
}

pub open spec fn paused_event_view(reason: PauseReason, mid: Dec) -> RuntimeEventView {
    RuntimeEventView {
        service_state: Some(ServiceState::Paused),
        ..bare_event(RuntimeEventKind::GridPaused, pause_text(reason, mid), Some(mid))
    }
}

/// A paused cycle: nothing planned, executed or reconciled; the state change
/// (if any) and the pause recorded; the given price, position and orders kept.
pub open spec fn paused_cycle_matches(
    prev: RuntimeStateView,
    reason: PauseReason,
    mid: Dec,
    position: Position,
    orders: Seq<ExistingOrderView>,
    out: ServiceCycleOutput,
    after: RuntimeStateView,
) -> bool {
    let events = change_events(prev.health.service_state, ServiceState::Paused) + seq![
        paused_event_view(reason, mid),
    ];
    &&& out.planner.active_levels@.len() == 0
    &&& out.planner.desired_orders@.len() == 0
    &&& out.planner.rejected_levels@.len() == 0
    &&& out.planner.projected_position_after_orders == position.size
    &&& out.execution.place@.len() == 0
    &&& out.execution.cancel@.len() == 0
    &&& out.execution.keep@.len() == 0
    &&& out.execution.diff.missing_on_exchange@.len() == 0
    &&& out.execution.diff.unexpected_on_exchange@.len() == 0
    &&& out.execution.diff.matched == 0
    &&& out.executed is None
    &&& out.reconciliation.diff.missing_on_exchange@.len() == 0
    &&& out.reconciliation.diff.unexpected_on_exchange@.len() == 0
    &&& out.reconciliation.diff.matched == 0
    &&& out.reconciliation.synthetic_fill is None
    &&& event_views(out.events@) == events
    &&& after == (RuntimeStateView {
        recent_events: pushed_all(prev.recent_events, events, 200),
        health: after.health,
        ..cycle_start(prev, mid, position, orders)
    })
    &&& pause_health(after.health, reason, mid)
    &&& out.state@ == after
}

/// A planned cycle: the plan for the position at `mid`, the execution plan
/// against the exchange orders and its dry run, the reconciliation against
/// the previous cycle's orders and position, the events, fill and health
/// recorded.
pub open spec fn planned_cycle_matches(
    c: AppConfig,
    planner_eps: Dec,
    eps: Dec,
    prev: RuntimeStateView,
    mid: Dec,
    position: Position,
    orders: Seq<ExistingOrderView>,
    out: ServiceCycleOutput,
    after: RuntimeStateView,
) -> bool {
    let plan = plan_spec(c, planner_eps, mid, Some(&position));
    let desired = intent_views(out.planner.desired_orders@);
    let fill = fill_view(out.reconciliation.synthetic_fill);
    let events = event_views(out.events@);
    &&& out.planner.active_levels@ == select_spec(c, grid_spec(c, mid), mid, Some(&position))
    &&& desired == plan.desired
    &&& out.planner.rejected_levels@ == plan.rejected
    &&& out.planner.projected_position_after_orders == plan.planned
    &&& plan_matches(out.execution, c, desired, orders)
    &&& (out.executed matches Some(e) && executed_matches(e, out.execution))
    &&& diff_matches(out.reconciliation.diff, orders, desired, order_precision_spec(c.order_size))
    &&& fill == inferred_fill_spec(c.symbol@, eps, stored_size(prev), position.size, prev.working_orders, orders)
    &&& events == runtime_events_spec(
        out.planner.rejected_levels@,
        out.execution,
        out.executed,
        out.reconciliation,
        mid,
        prev.health.service_state,
    )
    &&& after == (RuntimeStateView {
        recent_fills: match fill {
            Some(f) => newest_first(prev.recent_fills, f, 100),
            None => prev.recent_fills,
        },
        recent_events: pushed_all(prev.recent_events, events, 200),
        health: after.health,
        ..cycle_start(prev, mid, position, orders)
    })
    &&& cycle_health(
        after.health,
        service_state_spec(out.execution, out.reconciliation),
        health_issues_spec(mid, position, out.reconciliation),
        mid,
    )
    &&& out.state@ == after
}

/// What one cycle does: a pause when one applies, a planned cycle otherwise.
pub open spec fn cycle_matches(
    c: AppConfig,
    planner_eps: Dec,
    eps: Dec,
    prev: RuntimeStateView,
    mid: Dec,
    position: Position,
    orders: Seq<ExistingOrderView>,
    out: ServiceCycleOutput,
    after: RuntimeStateView,
) -> bool {
    match pause_reason_spec(c, mid) {
        Some(reason) => paused_cycle_matches(prev, reason, mid, position, orders, out, after),
        None => planned_cycle_matches(c, planner_eps, eps, prev, mid, position, orders, out, after),
    }
}

/// The grid service: planner, execution engine, reconciliation and the
/// state kept between cycles, all on one configuration.
#[derive(Debug)]
pub struct GridBotService {
    config: AppConfig,
    planner: GridPlanner,
    execution: ExecutionEngine,
    reconcile: ReconcileEngine,
    state: InMemoryStateStore,
}

impl GridBotService {
    pub closed spec fn config_view(&self) -> AppConfig {
        self.config
    }

    pub closed spec fn state_view(&self) -> RuntimeStateView {
        self.state@
    }

    /// The epsilon the planner's risk checks use.
    pub closed spec fn planner_epsilon(&self) -> Dec {
        self.planner.epsilon_view()
    }

    /// The epsilon below which a position change is no fill.
    pub closed spec fn reconcile_epsilon(&self) -> Dec {
        self.reconcile.epsilon_view()
    }

    pub closed spec fn wf(&self) -> bool {
        &&& config_wf(self.config)
        &&& self.planner.inv()
        &&& self.planner.config_view() == self.config
        &&& self.execution.config_view() == self.config
        &&& self.reconcile.symbol_view() == self.config.symbol@
        &&& self.reconcile.epsilon_view() == qty_epsilon_spec(self.config.order_size)
        &&& self.reconcile.epsilon_view().wf()
        &&& self.reconcile.key_precision_view() == order_precision_spec(self.config.order_size)
    }

    pub fn new(config: AppConfig) -> (r: GridBotService)
        requires
            config_wf(config),
        ensures
            r.wf(),
            r.config_view() == config,
            r.planner_epsilon() == flip_epsilon_spec(config.order_size),
            r.reconcile_epsilon() == qty_epsilon_spec(config.order_size),
            empty_state(r.state_view()),
    {
        let planner = GridPlanner::new(config.clone());
        let execution = ExecutionEngine::new(config.clone());
        let reconcile = ReconcileEngine::for_order_size(
            config.symbol.as_str(),
            qty_epsilon(&config.order_size),
            config.order_size,
        );
        GridBotService { config, planner, execution, reconcile, state: InMemoryStateStore::new() }
    }

    pub fn restore(&mut self, state: RuntimeState)
        ensures
            final(self).state_view() == state@,
            final(self).config_view() == old(self).config_view(),
            final(self).planner_epsilon() == old(self).planner_epsilon(),
            final(self).reconcile_epsilon() == old(self).reconcile_epsilon(),
            old(self).wf() ==> final(self).wf(),
    {
        self.state.restore(state);
    }

    /// A copy of the state kept between cycles.
    pub fn snapshot(&self) -> (r: RuntimeState)
        ensures
            r@ == self.state_view(),
    {
        self.state.get()
    }

    pub fn config(&self) -> (r: &AppConfig)
        ensures
            *r == self.config_view(),
    {
        &self.config
    }

    /// The pause that applies at `mid_price`, if any: the kill switch first,
    /// then a price outside the configured band.
    pub fn guard_pause_reason(&self, mid_price: Dec) -> (r: Option<PauseReason>)
        requires
            self.wf(),
            mid_price.wf(),
        ensures
            r == pause_reason_spec(self.config_view(), mid_price),
    {
        if self.config.kill_switch {
            return Some(PauseReason::KillSwitch);
        }
        let below = match self.config.grid_min_price {
            Some(min) => mid_price.less_than(&min),
            None => false,
        };
        let above = match self.config.grid_max_price {
            Some(max) => max.less_than(&mid_price),
            None => false,
        };
        if below || above {
            return Some(PauseReason::PriceOutOfRange);
        }
        None
    }


    /// Plans one cycle at `mid_price` for the position and the exchange
    /// orders given: when a pause applies, records it and plans nothing;
    /// otherwise plans, dry-runs the plan, reconciles against the previous
    /// cycle and records events, any inferred fill and the health.
    pub fn plan_cycle(&mut self, mid_price: Dec, current_position: Position, current_orders: Vec<ExistingOrder>) -> (r:
        ServiceCycleOutput)
        requires
            old(self).wf(),
            mid_price.wf(),
            pause_reason_spec(old(self).config_view(), mid_price) is Some || cycle_in_range(
                old(self).config_view(),
                old(self).state_view(),
                mid_price,
                current_position,
                current_orders@,
            ) || cycle_fits(
                old(self).config_view(),
                old(self).planner_epsilon(),
                old(self).state_view(),
                mid_price,
                current_position,
                current_orders@,
            ),
        ensures
            final(self).wf(),
            cycle_in_range(old(self).config_view(), old(self).state_view(), mid_price, current_position, current_orders@)
                ==> stored_in_range(final(self).state_view()),
            final(self).config_view() == old(self).config_view(),
            final(self).planner_epsilon() == old(self).planner_epsilon(),
            final(self).reconcile_epsilon() == old(self).reconcile_epsilon(),
            cycle_matches(
                old(self).config_view(),
                old(self).planner_epsilon(),
                old(self).reconcile_epsilon(),
                old(self).state_view(),
                mid_price,
                current_position,
                existing_views(current_orders@),
                r,
                final(self).state_view(),
            ),
    {
        let previous = self.state.get();
        self.state.set_last_mid_price(mid_price);
        self.state.set_position(current_position.clone());
        self.state.set_working_orders(clone_existing(current_orders.as_slice()));
        proof {
            assert(self.state@ == cycle_start(previous@, mid_price, current_position, existing_views(current_orders@)));
            if orders_in_range(current_orders@) {
                assert forall|k: int| 0 <= k < existing_views(current_orders@).len() implies (#[trigger] existing_views(
                    current_orders@,
                )[k]).intent.price.wf() && within(existing_views(current_orders@)[k].intent.qty, input_bound()) by {
                    assert(existing_views(current_orders@)[k] == current_orders@[k]@);
                }
            }
        }
        match self.guard_pause_reason(mid_price) {
            Some(reason) => self.pause_cycle(reason, mid_price, current_position, &previous),
            None => self.planned_cycle(mid_price, current_position, current_orders, previous),
        }
    }

    /// One cycle on a snapshot of the account.
    pub fn plan_cycle_from_snapshot(&mut self, snapshot: ReadOnlyAccountSnapshot) -> (r: ServiceCycleOutput)
        requires
            old(self).wf(),
            snapshot.mark_price.wf(),
            pause_reason_spec(old(self).config_view(), snapshot.mark_price) is Some || cycle_in_range(
                old(self).config_view(),
                old(self).state_view(),
                snapshot.mark_price,
                snapshot.position,
                snapshot.open_orders@,
            ) || cycle_fits(
                old(self).config_view(),
                old(self).planner_epsilon(),
                old(self).state_view(),
                snapshot.mark_price,
                snapshot.position,
                snapshot.open_orders@,
            ),
        ensures
            final(self).wf(),
            cycle_in_range(
                old(self).config_view(),
                old(self).state_view(),
                snapshot.mark_price,
                snapshot.position,
                snapshot.open_orders@,
            ) ==> stored_in_range(final(self).state_view()),
            final(self).config_view() == old(self).config_view(),
            final(self).planner_epsilon() == old(self).planner_epsilon(),
            final(self).reconcile_epsilon() == old(self).reconcile_epsilon(),
            cycle_matches(
                old(self).config_view(),
                old(self).planner_epsilon(),
                old(self).reconcile_epsilon(),
                old(self).state_view(),
                snapshot.mark_price,
                snapshot.position,
                existing_views(snapshot.open_orders@),
                r,
                final(self).state_view(),
            ),
    {
        self.plan_cycle(snapshot.mark_price, snapshot.position, snapshot.open_orders)
    }

    /// Whether the kept state stays within the magnitudes a cycle computes with.
    pub fn stored_state_in_range(&self) -> (r: bool)
        ensures
            r == stored_in_range(self.state_view()),
    {
        let state = self.state.get();
        let mut i: usize = 0;
        while i < state.working_orders.len()
            invariant
                state@ == self.state@,
                i <= state.working_orders@.len(),
                forall|k: int|
                    0 <= k < i ==> (#[trigger] state@.working_orders[k]).intent.price.wf() && within(
                        state@.working_orders[k].intent.qty,
                        input_bound(),
                    ),
            decreases state.working_orders@.len() - i,
        {
            let order = &state.working_orders[i];
            assert(state@.working_orders[i as int] == order@);
            if !(order.intent.price.is_wf() && order.intent.qty.is_within(1000000000000)) {
                return false;
            }
            i = i + 1;
        }
        match &state.position {
            Some(p) => p.size.is_within(1000000000000),
            None => true,
        }
    }

    /// Whether a cycle may run on these inputs: the price and position within
    /// the bounds the planner computes with, the exchange orders within those
    /// reconciliation computes with, and in short-only mode with a short an
    /// order size of at least `10^-16`, which keeps the short's ratio to it
    /// representable.
    pub fn cycle_inputs_in_range(&self, mid_price: &Dec, position: &Position, orders: &[ExistingOrder]) -> (r: bool)
        requires
            self.wf(),
        ensures
            r == cycle_inputs_ok(self.config_view(), *mid_price, *position, orders@),
            r ==> within(*mid_price, input_bound()) && position_ok(self.config_view(), Some(position))
                && orders_in_range(orders@),
    {
        if !mid_price.is_within(1000000000000) || !position.size.is_within(1000000000000) {
            return false;
        }
        if self.config.grid_mode == GridMode::ShortOnly && position.size.less_than(&Dec::zero()) {
            let floor = Dec::new(1, 16);
            assert(floor@ == 1000000000000) by {
                reveal_with_fuel(crate::decimal::pow10, 13);
            }
            if !floor.at_most(&self.config.order_size.abs()) {
                return false;
            }
            proof {
                let u = unit();
                let os = abs_int(self.config.order_size@);
                assert(abs_int(position.size@) * u <= safe_limit() * os) by (nonlinear_arith)
                    requires
                        abs_int(position.size@) <= 1000000000000 * u,
                        os >= 1000000000000,
                        u == 10000000000000000000000000000,
                ;
            }
        }
        let mut i: usize = 0;
        while i < orders.len()
            invariant
                i <= orders@.len(),
                forall|k: int|
                    0 <= k < i ==> (#[trigger] orders@[k]).intent.price.wf() && within(
                        orders@[k].intent.qty,
                        input_bound(),
                    ),
            decreases orders@.len() - i,
        {
            if !(orders[i].intent.price.is_wf() && orders[i].intent.qty.is_within(1000000000000)) {
                assert(!((orders@[i as int]).intent.price.wf() && within(orders@[i as int].intent.qty, input_bound())));
                return false;
            }
            i = i + 1;
        }
        true
    }

    fn pause_cycle(&mut self, reason: PauseReason, mid_price: Dec, current_position: Position, previous: &RuntimeState) -> (r:
        ServiceCycleOutput)
        requires
            old(self).wf(),
            mid_price.wf(),
        ensures
            final(self).wf(),
            stored_in_range(old(self).state_view()) ==> stored_in_range(final(self).state_view()),
            final(self).config_view() == old(self).config_view(),
            final(self).planner_epsilon() == old(self).planner_epsilon(),
            final(self).reconcile_epsilon() == old(self).reconcile_epsilon(),
            old(self).state_view() == cycle_start(
                previous@,
                mid_price,
                current_position,
                old(self).state_view().working_orders,
            ) ==> paused_cycle_matches(
                previous@,
                reason,
                mid_price,
                current_position,
                old(self).state_view().working_orders,
                r,
                final(self).state_view(),
            ),
    {
        let service_state = ServiceState::Paused;
        let mut events: Vec<RuntimeEvent> = Vec::new();
        if previous.health.service_state != service_state {
            let message = state_change_message(previous.health.service_state, service_state);
            events.push(RuntimeEvent::service_state_changed(service_state, message.as_str()));
        }
        let message = pause_reason_message(reason, mid_price);
        let ghost before = event_views(events@);
        events.push(RuntimeEvent::paused(service_state, message.as_str(), Some(mid_price)));
        assert(event_views(events@) =~= change_events(previous@.health.service_state, ServiceState::Paused) + seq![
            paused_event_view(reason, mid_price),
        ]);
        self.record_events(&events);
        let mut health = RuntimeHealth::default();
        health.pause(reason, Some(mid_price));
        self.state.set_health(health);
        ServiceCycleOutput {
            planner: PlannerOutput {
                active_levels: Vec::new(),
                desired_orders: Vec::new(),
                rejected_levels: Vec::new(),
                projected_position_after_orders: current_position.size,
            },
            execution: ExecutionPlan::default(),
            executed: None,
            reconciliation: ReconcileOutcome::default(),
            events,
            state: self.state.get(),
        }
    }

    fn planned_cycle(
        &mut self,
        mid_price: Dec,
        current_position: Position,
        current_orders: Vec<ExistingOrder>,
        previous: RuntimeState,
    ) -> (r: ServiceCycleOutput)
        requires
            old(self).wf(),
            mid_price.wf(),
            current_position.size.wf(),
            existing_ok(current_orders@),
            stored_in_range(old(self).state_view()) && cycle_in_range(
                old(self).config_view(),
                previous@,
                mid_price,
                current_position,
                current_orders@,
            ) || cycle_fits(
                old(self).config_view(),
                old(self).planner_epsilon(),
                previous@,
                mid_price,
                current_position,
                current_orders@,
            ),
            pause_reason_spec(old(self).config_view(), mid_price) is None,
        ensures
            final(self).wf(),
            stored_in_range(old(self).state_view()) && cycle_in_range(
                old(self).config_view(),
                previous@,
                mid_price,
                current_position,
                current_orders@,
            ) ==> stored_in_range(final(self).state_view()),
            final(self).config_view() == old(self).config_view(),
            final(self).planner_epsilon() == old(self).planner_epsilon(),
            final(self).reconcile_epsilon() == old(self).reconcile_epsilon(),
            old(self).state_view() == cycle_start(
                previous@,
                mid_price,
                current_position,
                existing_views(current_orders@),
            ) ==> planned_cycle_matches(
                old(self).config_view(),
                old(self).planner_epsilon(),
                old(self).reconcile_epsilon(),
                previous@,
                mid_price,
                current_position,
                existing_views(current_orders@),
                r,
                final(self).state_view(),
            ),
    {
        let ghost bounded = stored_in_range(old(self).state_view()) && cycle_in_range(
            self.config,
            previous@,
            mid_price,
            current_position,
            current_orders@,
        );
        let planner_output = self.planner.plan_orders(mid_price, Some(&current_position));
        proof {
            assert forall|k: int| 0 <= k < current_orders@.len() implies intent_ok(
                (#[trigger] current_orders@[k]).intent@,
            ) by {}
        }
        let execution_plan = self.execution.plan_from_planner_output(&planner_output, current_orders.as_slice());
        let executed = Some(self.execution.execute(&DryRunExecutionAdapter::new(), &execution_plan));
        let previous_snapshot = ReconcileSnapshot {
            position: match &previous.position {
                Some(p) => Some(p.clone()),
                None => None,
            },
            orders: clone_existing(previous.working_orders.as_slice()),
        };
        proof {
            if bounded {
                assert forall|k: int| 0 <= k < previous_snapshot.orders@.len() implies (
                #[trigger] previous_snapshot.orders@[k]).intent.price.wf() && within(
                    previous_snapshot.orders@[k].intent.qty,
                    input_bound(),
                ) by {
                    assert(existing_views(previous.working_orders@)[k] == previous.working_orders@[k]@);
                }
            }
            assert(existing_views(previous_snapshot.orders@) =~= previous@.working_orders);
        }
        let ghost current_views = existing_views(current_orders@);
        let current_snapshot = ReconcileSnapshot { position: Some(current_position.clone()), orders: current_orders };
        proof {
            assert(snapshot_size(previous_snapshot) == stored_size(previous@));
            assert(existing_views(current_snapshot.orders@) == current_views);
        }
        proof {
          if bounded {
            let change = snapshot_size(current_snapshot)@ - snapshot_size(previous_snapshot)@;
            assert(snapshot_size(previous_snapshot) == stored_size(previous@));
            assert(Dec::zero_spec()@ == 0) by {
                assert(0 * pow10(28) == 0);
            }
            assert(within(Dec::zero_spec(), input_bound()));
            assert(within(snapshot_size(previous_snapshot), input_bound()));
            assert(within(snapshot_size(current_snapshot), input_bound()));
            assert(abs_int(change) <= 2 * input_bound());
            let prev_v = existing_views(previous_snapshot.orders@);
            let cur_v = existing_views(current_snapshot.orders@);
            assert forall|k: int| 0 <= k < prev_v.len() implies within((#[trigger] prev_v[k]).intent.qty, input_bound()) by {
                assert(prev_v[k] == previous_snapshot.orders@[k]@);
            }
            lemma_missing_candidates_from(prev_v, cur_v, crate::domain::OrderSide::Buy);
            lemma_missing_candidates_from(prev_v, cur_v, crate::domain::OrderSide::Sell);
            let cb = missing_candidates(prev_v, cur_v, crate::domain::OrderSide::Buy);
            let cs = missing_candidates(prev_v, cur_v, crate::domain::OrderSide::Sell);
            assert forall|k: int| 0 <= k < cb.len() implies (#[trigger] cb[k]).intent.qty.wf() && abs_int(
                cb[k].intent.qty@,
            ) + abs_int(change) + unit() <= safe_limit() by {
                let j = choose|j: int| 0 <= j < prev_v.len() && prev_v[j] == cb[k];
                assert(within(prev_v[j].intent.qty, input_bound()));
            }
            assert forall|k: int| 0 <= k < cs.len() implies (#[trigger] cs[k]).intent.qty.wf() && abs_int(
                cs[k].intent.qty@,
            ) + abs_int(change) + unit() <= safe_limit() by {
                let j = choose|j: int| 0 <= j < prev_v.len() && prev_v[j] == cs[k];
                assert(within(prev_v[j].intent.qty, input_bound()));
            }
          }
        }
        let reconciliation = self.reconcile.reconcile(
            &previous_snapshot,
            &current_snapshot,
            planner_output.desired_orders.as_slice(),
        );
        let events = build_runtime_events(
            &planner_output,
            &execution_plan,
            match &executed {
                Some(e) => Some(e),
                None => None,
            },
            &reconciliation,
            mid_price,
            previous.health.service_state,
        );
        match &reconciliation.synthetic_fill {
            Some(fill) => {
                self.state.push_fill(fill.clone(), 100);
            },
            None => {},
        }
        self.record_events(&events);
        let health = build_runtime_health(mid_price, &current_position, &execution_plan, &reconciliation);
        self.state.set_health(health);
        ServiceCycleOutput {
            planner: planner_output,
            execution: execution_plan,
            executed,
            reconciliation,
            events,
            state: self.state.get(),
        }
    }

    fn record_events(&mut self, events: &Vec<RuntimeEvent>)
        requires
            old(self).wf(),
        ensures
            final(self).wf(),
            final(self).config_view() == old(self).config_view(),
            final(self).planner_epsilon() == old(self).planner_epsilon(),
            final(self).reconcile_epsilon() == old(self).reconcile_epsilon(),
            final(self).state_view() == (RuntimeStateView {
                recent_events: pushed_all(old(self).state_view().recent_events, event_views(events@), 200),
                ..old(self).state_view()
            }),
    {
        let ghost start = self.state@.recent_events;
        let mut i: usize = 0;
        assert(event_views(events@).take(0) =~= Seq::<RuntimeEventView>::empty());
        while i < events.len()
            invariant
                self.wf(),
                self.config == old(self).config,
                self.planner == old(self).planner,
                self.execution == old(self).execution,
                self.reconcile == old(self).reconcile,
                i <= events@.len(),
                self.state@ == (RuntimeStateView {
                    recent_events: pushed_all(start, event_views(events@).take(i as int), 200),
                    ..old(self).state@
                }),
            decreases events@.len() - i,
        {
            let event = events[i].clone();
            assert(event_views(events@).take(i + 1).drop_last() =~= event_views(events@).take(i as int));
            assert(event_views(events@).take(i + 1).last() == event@);
            self.state.push_event(event, 200);
            i = i + 1;
        }
        assert(event_views(events@).take(events@.len() as int) =~= event_views(events@));
    }
}

} // verus!
