use backpack_grid_bot::config::AppConfig;
use backpack_grid_bot::decimal::Dec;
use backpack_grid_bot::domain::{GridMode, OrderIntent, OrderSide, OrderType, Position};
use backpack_grid_bot::execution::{DryRunExecutionAdapter, ExecutionEngine, ExistingOrder};
use backpack_grid_bot::planner::GridPlanner;

fn d(s: &str) -> Dec {
    let x: rust_decimal::Decimal = s.parse().unwrap();
    Dec { mantissa: x.mantissa(), scale: x.scale() }
}

fn cfg() -> AppConfig {
    AppConfig {
        symbol: "ETH_USDC_PERP".into(),
        levels: 5,
        spacing_bps: d("35"),
        order_size: d("0.003"),
        max_position_abs: d("0.02"),
        grid_mode: GridMode::ShortOnly,
        grid_active_levels: 5,
        grid_short_bias_sell_ratio: d("3"),
        grid_min_price: None,
        grid_max_price: None,
        leverage: d("10"),
        quote_asset: "USDC".into(),
        kill_switch: false,
    }
}

fn intent(side: OrderSide, price: Dec, qty: Dec, reduce_only: bool) -> OrderIntent {
    OrderIntent {
        client_order_id: format!("{:?}-{}", side, rust_decimal::Decimal::from_i128_with_scale(price.mantissa, price.scale)),
        symbol: "ETH_USDC_PERP".into(),
        side,
        order_type: OrderType::Limit,
        price,
        qty,
        reduce_only,
        post_only: true,
    }
}

fn existing(order_id: &str, intent: OrderIntent) -> ExistingOrder {
    ExistingOrder { order_id: order_id.into(), client_order_id: intent.client_order_id.clone(), intent }
}

#[test]
fn build_plan_detects_missing_and_unexpected_orders() {
    let engine = ExecutionEngine::new(cfg());
    let desired = vec![
        intent(OrderSide::Buy, d("2252.48"), d("0.003"), true),
        intent(OrderSide::Sell, d("2268.32"), d("0.003"), false),
    ];
    let existing_orders = vec![
        existing("1", intent(OrderSide::Buy, d("2252.48"), d("0.0030000000000000005"), true)),
        existing("2", intent(OrderSide::Sell, d("2276.24"), d("0.003"), false)),
    ];

    let plan = engine.build_plan(&desired, &existing_orders);
    assert_eq!(plan.keep.len(), 1);
    assert_eq!(plan.place.len(), 1);
    assert_eq!(plan.cancel.len(), 1);
    assert_eq!(plan.diff.matched, 1);
    assert_eq!(plan.place[0].price, d("2268.32"));
    assert_eq!(plan.cancel[0].intent.price, d("2276.24"));
}

#[test]
fn planner_output_flows_into_execution_plan() {
    let cfg = cfg();
    let planner = GridPlanner::new(cfg.clone());
    let engine = ExecutionEngine::new(cfg);
    let position = Position {
        symbol: "ETH_USDC_PERP".into(),
        size: d("-0.006"),
        entry_price: d("2262.38"),
        unrealized_pnl: Dec::zero(),
    };
    let planner_output = planner.plan_orders(d("2260.4"), Some(&position));
    let existing_orders = vec![];

    let plan = engine.plan_from_planner_output(&planner_output, &existing_orders);
    assert_eq!(plan.place.len(), planner_output.desired_orders.len());
    assert!(plan.cancel.is_empty());
}

#[test]
fn dry_run_leaves_the_desired_orders() {
    let engine = ExecutionEngine::new(cfg());
    let desired = vec![
        intent(OrderSide::Buy, d("2252.48"), d("0.003"), true),
        intent(OrderSide::Sell, d("2268.32"), d("0.003"), false),
    ];
    let existing_orders = vec![
        existing("1", intent(OrderSide::Buy, d("2252.48"), d("0.003"), true)),
        existing("2", intent(OrderSide::Sell, d("2276.24"), d("0.003"), false)),
    ];
    let plan = engine.build_plan(&desired, &existing_orders);
    let executed = engine.execute(&DryRunExecutionAdapter::new(), &plan);
    assert_eq!(executed.mode, "dry_run");
    assert_eq!(executed.placed.len(), 1);
    assert_eq!(executed.placed[0].order_id, format!("dryrun:{}", desired[1].client_order_id));
    assert_eq!(executed.cancelled.len(), 1);
    assert_eq!(executed.final_orders.len(), 2);
    let again = engine.build_plan(&desired, &executed.final_orders);
    assert!(again.place.is_empty());
    assert!(again.cancel.is_empty());
    assert_eq!(again.diff.matched, 2);
}

#[test]
fn sync_projection_reports_the_final_orders() {
    let engine = ExecutionEngine::new(cfg());
    let desired = vec![intent(OrderSide::Sell, d("2268.32"), d("0.003"), false)];
    let plan = engine.build_plan(&desired, &[]);
    let finals = vec![existing("9", intent(OrderSide::Sell, d("2268.32"), d("0.003"), false))];
    let result = engine.project_sync_result(&plan, &finals);
    assert_eq!(result.final_orders, finals);
    assert_eq!(result.placed.len(), 1);
    assert!(result.cancelled.is_empty());
    assert_eq!(result.diff.matched, 1);
    assert!(result.diff.missing_on_exchange.is_empty());
}
