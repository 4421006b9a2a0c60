use backpack_grid_bot::decimal::Dec;
use backpack_grid_bot::domain::{OrderIntent, OrderSide, OrderType, PlannerOutput, Position};
use backpack_grid_bot::execution::ExecutionPlan;
use backpack_grid_bot::health::RuntimeHealth;
use backpack_grid_bot::observability::{order_view_from_intent, ShadowReport};
use backpack_grid_bot::persistence::{JsonFilePersistence, RuntimeCheckpoint};
use backpack_grid_bot::reconcile::ReconcileOutcome;
use backpack_grid_bot::service::ServiceCycleOutput;
use backpack_grid_bot::state::RuntimeState;

fn d(s: &str) -> Dec {
    let x: rust_decimal::Decimal = s.parse().unwrap();
    Dec { mantissa: x.mantissa(), scale: x.scale() }
}

fn cycle(projected: &str) -> ServiceCycleOutput {
    ServiceCycleOutput {
        planner: PlannerOutput {
            active_levels: vec![],
            desired_orders: vec![],
            rejected_levels: vec![],
            projected_position_after_orders: d(projected),
        },
        execution: ExecutionPlan::default(),
        executed: None,
        reconciliation: ReconcileOutcome::default(),
        events: vec![],
        state: RuntimeState {
            working_orders: vec![],
            recent_fills: vec![],
            recent_events: vec![],
            position: Some(Position {
                symbol: "ETH_USDC_PERP".into(),
                size: d("-0.003"),
                entry_price: d("2255.45"),
                unrealized_pnl: d("0"),
            }),
            last_mid_price: Some(d("2260.4")),
            health: RuntimeHealth::default(),
        },
    }
}

#[test]
fn report_serializes_cycle_summary() {
    let cycle = cycle("-0.006");
    let report = ShadowReport::from_cycle("ETH_USDC_PERP", &cycle);
    assert_eq!(report.symbol, "ETH_USDC_PERP");
    assert_eq!(report.mark_price, d("2260.4"));
    assert_eq!(report.projected_position_after_orders, d("-0.006"));
}

#[test]
fn saves_and_loads_checkpoint() {
    let store = JsonFilePersistence::new("runtime/state.json");
    assert_eq!(store.path(), "runtime/state.json");
    let checkpoint = RuntimeCheckpoint::from_cycle(&cycle("0"), "ETH_USDC_PERP");
    assert_eq!(checkpoint.symbol, "ETH_USDC_PERP");
    assert_eq!(checkpoint.state.position.unwrap().size, d("-0.003"));
    assert_eq!(checkpoint.desired_orders, 0);
    assert!(!checkpoint.synthetic_fill);
}

#[test]
fn report_order_views_name_sides_in_lower_case() {
    let intent = OrderIntent {
        client_order_id: "grid-sell-1-226832".into(),
        symbol: "ETH_USDC_PERP".into(),
        side: OrderSide::Sell,
        order_type: OrderType::Limit,
        price: d("2268.32"),
        qty: d("0.003"),
        reduce_only: false,
        post_only: true,
    };
    let view = order_view_from_intent(&intent);
    assert_eq!(view.side, "sell");
    assert_eq!(view.client_order_id, "grid-sell-1-226832");
    assert_eq!(view.price, d("2268.32"));
    let no_mark = ServiceCycleOutput { state: RuntimeState { last_mid_price: None, ..cycle("0").state }, ..cycle("0") };
    assert_eq!(ShadowReport::from_cycle("X", &no_mark).mark_price, Dec::zero());
}
