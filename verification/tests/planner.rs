use backpack_grid_bot::config::AppConfig;
use backpack_grid_bot::decimal::Dec;
use backpack_grid_bot::domain::{GridMode, OrderSide, Position};
use backpack_grid_bot::planner::{config_in_range, side_label, GridPlanner};

fn d(s: &str) -> Dec {
    let x: rust_decimal::Decimal = s.parse().unwrap();
    Dec { mantissa: x.mantissa(), scale: x.scale() }
}

fn cfg() -> AppConfig {
    AppConfig {
        symbol: "ETH_USDC_PERP".into(),
        levels: 5,
        spacing_bps: d("35"),
        order_size: d("0.003"),
        max_position_abs: d("0.02"),
        grid_mode: GridMode::ShortOnly,
        grid_active_levels: 5,
        grid_short_bias_sell_ratio: d("3"),
        grid_min_price: None,
        grid_max_price: None,
        leverage: d("10"),
        quote_asset: "USDC".into(),
        kill_switch: false,
    }
}

#[test]
fn short_only_planner_only_places_reduce_buys_when_short_exists() {
    let planner = GridPlanner::new(cfg());
    let position = Position {
        symbol: "ETH_USDC_PERP".into(),
        size: d("-0.006"),
        entry_price: d("2262.38"),
        unrealized_pnl: Dec::zero(),
    };
    let out = planner.plan_orders(d("2260.40"), Some(&position));
    let buys = out.desired_orders.iter().filter(|o| o.side == OrderSide::Buy).collect::<Vec<_>>();
    let sells = out.desired_orders.iter().filter(|o| o.side == OrderSide::Sell).collect::<Vec<_>>();
    assert_eq!(buys.len(), 2);
    assert!(buys.iter().all(|o| o.reduce_only));
    assert_eq!(sells.len(), 5);
}

#[test]
fn short_only_planner_does_not_emit_buys_when_flat() {
    let planner = GridPlanner::new(cfg());
    let out = planner.plan_orders(d("2260.40"), Some(&Position::flat("ETH_USDC_PERP")));
    assert!(out.desired_orders.iter().all(|o| o.side == OrderSide::Sell));
}

#[test]
fn planned_orders_stay_within_the_hard_cap() {
    let mut config = cfg();
    config.max_position_abs = d("0.009");
    let planner = GridPlanner::new(config);
    let out = planner.plan_orders(d("2260.40"), Some(&Position::flat("ETH_USDC_PERP")));
    let sells = out.desired_orders.iter().filter(|o| o.side == OrderSide::Sell).count();
    assert_eq!(sells, 3);
    assert_eq!(out.projected_position_after_orders, d("-0.009"));
    assert!(!out.rejected_levels.is_empty());
}

#[test]
fn client_ids_name_side_level_and_price_in_cents() {
    let planner = GridPlanner::new(cfg());
    let out = planner.plan_orders(d("2260.40"), Some(&Position::flat("ETH_USDC_PERP")));
    assert!(out.desired_orders.iter().all(|o| o.client_order_id.starts_with("grid-sell-")));
    assert!(out.desired_orders.iter().all(|o| !o.client_order_id.contains('.')));
    assert_eq!(side_label(OrderSide::Buy), "buy");
}

#[test]
fn configuration_range_check() {
    assert!(config_in_range(&cfg()));
    let mut config = cfg();
    config.order_size = Dec { mantissa: 1, scale: 27 };
    assert!(!config_in_range(&config));
}

#[test]
fn plans_at_large_marks() {
    let planner = GridPlanner::new(cfg());
    let out = planner.plan_orders(d("5000000000000000"), Some(&Position::flat("ETH_USDC_PERP")));
    assert_eq!(out.active_levels.len(), 5);
    assert_eq!(out.desired_orders.len(), 5);
    assert!(out.desired_orders.iter().all(|o| o.side == OrderSide::Sell));
    assert_eq!(out.desired_orders[0].price, d("5017500000000000"));
}

#[test]
fn short_only_plan_never_goes_long_after_any_order() {
    let planner = GridPlanner::new(cfg());
    let position = Position {
        symbol: "ETH_USDC_PERP".into(),
        size: d("-0.005"),
        entry_price: d("2262.38"),
        unrealized_pnl: Dec::zero(),
    };
    let out = planner.plan_orders(d("2260.40"), Some(&position));
    let to_dec = |x: Dec| rust_decimal::Decimal::from_i128_with_scale(x.mantissa, x.scale);
    let mut running = to_dec(position.size);
    let buys: Vec<_> = out.desired_orders.iter().filter(|o| o.side == OrderSide::Buy).map(|o| to_dec(o.qty)).collect();
    assert_eq!(buys, vec![to_dec(d("0.003")), to_dec(d("0.002"))]);
    for order in &out.desired_orders {
        let qty = to_dec(order.qty);
        running = match order.side {
            OrderSide::Buy => running + qty,
            OrderSide::Sell => running - qty,
        };
        assert!(running <= rust_decimal::Decimal::ZERO);
    }
    assert!(to_dec(out.projected_position_after_orders) <= rust_decimal::Decimal::ZERO);
    assert_eq!(to_dec(out.projected_position_after_orders), running);
}

fn short_bias_sells(ratio: &str) -> usize {
    let mut config = cfg();
    config.grid_mode = GridMode::ShortBias;
    config.grid_active_levels = 3;
    config.grid_short_bias_sell_ratio = d(ratio);
    let planner = GridPlanner::new(config);
    let levels = planner.build_grid(d("2260.40"));
    let active = planner.select_active_levels(&levels, d("2260.40"), None);
    active.iter().filter(|l| l.side == OrderSide::Sell).count()
}

#[test]
fn short_bias_sell_count_from_small_negative_ratios() {
    assert_eq!(short_bias_sells("-0.1"), 1);
    assert_eq!(short_bias_sells("-0.15"), 1);
    assert_eq!(short_bias_sells("-0.5"), 3);
    assert_eq!(short_bias_sells("0.5"), 2);
    assert_eq!(short_bias_sells("0"), 1);
}
