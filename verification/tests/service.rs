use backpack_grid_bot::config::AppConfig;
use backpack_grid_bot::decimal::Dec;
use backpack_grid_bot::domain::{GridMode, OrderIntent, OrderSide, OrderType, Position};
use backpack_grid_bot::events::RuntimeEventKind;
use backpack_grid_bot::execution::ExistingOrder;
use backpack_grid_bot::health::{PauseReason, RuntimeHealth, ServiceState};
use backpack_grid_bot::service::{pause_reason_message, qty_epsilon, GridBotService};
use backpack_grid_bot::state::RuntimeState;

fn d(s: &str) -> Dec {
    let x: rust_decimal::Decimal = s.parse().unwrap();
    Dec { mantissa: x.mantissa(), scale: x.scale() }
}

fn cfg() -> AppConfig {
    AppConfig {
        symbol: "ETH_USDC_PERP".into(),
        levels: 5,
        spacing_bps: d("35"),
        order_size: d("0.003"),
        max_position_abs: d("0.02"),
        grid_mode: GridMode::ShortOnly,
        grid_active_levels: 5,
        grid_short_bias_sell_ratio: d("3"),
        grid_min_price: None,
        grid_max_price: None,
        leverage: d("10"),
        quote_asset: "USDC".into(),
        kill_switch: false,
    }
}

fn existing(order_id: &str, side: OrderSide, price: Dec, qty: Dec, reduce_only: bool) -> ExistingOrder {
    let intent = OrderIntent {
        client_order_id: format!("{:?}-{}", side, rust_decimal::Decimal::from_i128_with_scale(price.mantissa, price.scale)),
        symbol: "ETH_USDC_PERP".into(),
        side,
        order_type: OrderType::Limit,
        price,
        qty,
        reduce_only,
        post_only: true,
    };
    ExistingOrder { order_id: order_id.into(), client_order_id: intent.client_order_id.clone(), intent }
}

fn flat() -> Position {
    Position { symbol: "ETH_USDC_PERP".into(), size: d("0"), entry_price: d("0"), unrealized_pnl: d("0") }
}

#[test]
fn service_cycle_plans_orders_records_events_and_health() {
    let mut service = GridBotService::new(cfg());
    service.restore(RuntimeState {
        working_orders: vec![existing("1", OrderSide::Sell, d("2268.32"), d("0.003"), false)],
        recent_fills: vec![],
        recent_events: vec![],
        position: Some(Position {
            symbol: "ETH_USDC_PERP".into(),
            size: d("-0.003"),
            entry_price: d("2255.45"),
            unrealized_pnl: d("0"),
        }),
        last_mid_price: Some(d("2260.4")),
        health: RuntimeHealth::default(),
    });

    let out = service.plan_cycle(
        d("2260.4"),
        Position { symbol: "ETH_USDC_PERP".into(), size: d("-0.006"), entry_price: d("2255.45"), unrealized_pnl: d("0") },
        vec![],
    );

    assert_eq!(out.state.health.service_state, ServiceState::Degraded);
    assert!(!out.execution.place.is_empty());
    assert!(out.executed.is_some());
    assert!(out.events.iter().any(|event| event.kind == RuntimeEventKind::OrderPlanned));
    assert!(out.events.iter().any(|event| event.kind == RuntimeEventKind::ReconciliationMismatch));
}

#[test]
fn service_cycle_pauses_when_kill_switch_enabled() {
    let mut config = cfg();
    config.kill_switch = true;
    let mut service = GridBotService::new(config);

    let out = service.plan_cycle(d("2260.4"), flat(), vec![]);

    assert_eq!(out.state.health.service_state, ServiceState::Paused);
    assert_eq!(out.state.health.pause_reason, Some(PauseReason::KillSwitch));
    assert!(out.execution.place.is_empty());
    assert!(out.executed.is_none());
    assert!(out.events.iter().any(|event| event.kind == RuntimeEventKind::GridPaused));
}

#[test]
fn service_cycle_pauses_when_price_out_of_range() {
    let mut config = cfg();
    config.grid_max_price = Some(d("2250"));
    let mut service = GridBotService::new(config);

    let out = service.plan_cycle(d("2260.4"), flat(), vec![]);

    assert_eq!(out.state.health.service_state, ServiceState::Paused);
    assert_eq!(out.state.health.pause_reason, Some(PauseReason::PriceOutOfRange));
    assert!(out.execution.place.is_empty());
    assert!(out.executed.is_none());
    assert!(out.events.iter().any(|event| event.kind == RuntimeEventKind::GridPaused));
}

#[test]
fn synthetic_fill_is_recorded_with_an_event_and_an_issue() {
    let mut service = GridBotService::new(cfg());
    service.restore(RuntimeState {
        working_orders: vec![existing("1", OrderSide::Sell, d("2268.32"), d("0.003"), false)],
        recent_fills: vec![],
        recent_events: vec![],
        position: Some(Position { size: d("-0.003"), ..flat() }),
        last_mid_price: None,
        health: RuntimeHealth::default(),
    });
    let out = service.plan_cycle(d("2260.4"), Position { size: d("-0.006"), ..flat() }, vec![]);
    let fill = out.reconciliation.synthetic_fill.as_ref().unwrap();
    assert_eq!(fill.order_id.as_deref(), Some("1"));
    assert_eq!(out.state.recent_fills.len(), 1);
    assert!(out.events.iter().any(|e| e.kind == RuntimeEventKind::SyntheticFillInferred));
    assert!(out.state.health.issues.contains(&backpack_grid_bot::health::HealthIssue::SyntheticFillObserved));
    assert_eq!(out.events[0].kind, RuntimeEventKind::ServiceStateChanged);
    assert_eq!(out.events[0].message, "service state changed from Starting to Degraded");
    assert_eq!(out.state.recent_events[0].kind, out.events[out.events.len() - 1].kind);
}

#[test]
fn pause_messages_and_epsilon() {
    assert_eq!(pause_reason_message(PauseReason::KillSwitch, d("1")), "grid paused by kill switch");
    assert_eq!(
        pause_reason_message(PauseReason::PriceOutOfRange, d("2260.40")),
        "grid paused: mark price 2260.40 out of configured range"
    );
    assert_eq!(pause_reason_message(PauseReason::Manual, d("1")), "grid paused manually");
    assert_eq!(qty_epsilon(&d("0.003")), d("0.000001"));
    assert_eq!(qty_epsilon(&d("0.0030")).scale, 6);
    assert_eq!(qty_epsilon(&d("5")), d("0.001"));
}

#[test]
fn range_checks_guard_a_cycle() {
    let service = GridBotService::new(cfg());
    assert!(service.stored_state_in_range());
    assert!(service.cycle_inputs_in_range(&d("2260.4"), &flat(), &[]));
    let huge = Dec { mantissa: 79228162514264337593543950335, scale: 0 };
    assert!(!service.cycle_inputs_in_range(&huge, &flat(), &[]));
}

#[test]
fn short_only_cycle_needs_an_order_size_the_short_can_be_measured_in() {
    let mut config = cfg();
    config.order_size = d("0.00000000000000001");
    let service = GridBotService::new(config);
    let short = Position { symbol: "ETH_USDC_PERP".into(), size: d("-0.003"), entry_price: d("2255.45"), unrealized_pnl: Dec::zero() };
    assert!(!service.cycle_inputs_in_range(&d("2260.4"), &short, &[]));
    assert!(service.cycle_inputs_in_range(&d("2260.4"), &flat(), &[]));
    let mut config = cfg();
    config.order_size = d("0.0000000000000001");
    let service = GridBotService::new(config);
    assert!(service.cycle_inputs_in_range(&d("2260.4"), &short, &[]));
}

#[test]
fn a_kill_switch_pause_takes_any_mark_and_position() {
    let mut config = cfg();
    config.kill_switch = true;
    let mut service = GridBotService::new(config);
    let huge = Dec { mantissa: 79228162514264337593543950335, scale: 0 };
    assert_eq!(service.guard_pause_reason(huge), Some(PauseReason::KillSwitch));
    let big_short =
        Position { symbol: "ETH_USDC_PERP".into(), size: d("-50000000000000000"), entry_price: d("2255"), unrealized_pnl: Dec::zero() };
    let out = service.plan_cycle(huge, big_short, vec![]);
    assert_eq!(out.state.health.service_state, ServiceState::Paused);
    assert!(out.planner.desired_orders.is_empty());
}

#[test]
fn cycles_plan_at_large_marks() {
    let mut service = GridBotService::new(cfg());
    let out = service.plan_cycle(d("5000000000000000"), flat(), vec![]);
    assert_ne!(out.state.health.service_state, ServiceState::Paused);
    assert_eq!(out.planner.desired_orders.len(), 5);
    assert!(out.planner.desired_orders.iter().all(|o| o.side == OrderSide::Sell));
}
