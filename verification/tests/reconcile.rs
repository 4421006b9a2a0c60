use backpack_grid_bot::decimal::Dec;
use backpack_grid_bot::domain::{OrderIntent, OrderSide, OrderType, Position};
use backpack_grid_bot::execution::ExistingOrder;
use backpack_grid_bot::reconcile::{FillSource, ReconcileEngine, ReconcileSnapshot, SyntheticFill};

fn d(s: &str) -> Dec {
    let x: rust_decimal::Decimal = s.parse().unwrap();
    Dec { mantissa: x.mantissa(), scale: x.scale() }
}

fn intent(side: OrderSide, price: Dec, qty: Dec, reduce_only: bool) -> OrderIntent {
    OrderIntent {
        client_order_id: format!("{:?}-{}", side, rust_decimal::Decimal::from_i128_with_scale(price.mantissa, price.scale)),
        symbol: "ETH_USDC_PERP".into(),
        side,
        order_type: OrderType::Limit,
        price,
        qty,
        reduce_only,
        post_only: true,
    }
}

fn existing(order_id: &str, intent: OrderIntent) -> ExistingOrder {
    ExistingOrder { order_id: order_id.into(), client_order_id: intent.client_order_id.clone(), intent }
}

fn position(size: &str, entry: &str) -> Position {
    Position { symbol: "ETH_USDC_PERP".into(), size: d(size), entry_price: d(entry), unrealized_pnl: Dec::zero() }
}

fn fill(side: OrderSide, qty: &str, price: &str) -> SyntheticFill {
    SyntheticFill {
        source: FillSource::ReconciliationFallback,
        symbol: "ETH_USDC_PERP".into(),
        side,
        qty: d(qty),
        price: Some(d(price)),
        order_id: Some("1".into()),
        client_order_id: Some("grid-buy-1".into()),
        fee: Dec::zero(),
    }
}

#[test]
fn infers_reconciliation_fallback_fill_from_position_delta() {
    let engine = ReconcileEngine::new("ETH_USDC_PERP", d("0.000000001"));
    let previous = ReconcileSnapshot {
        position: Some(position("-0.003", "2255.45")),
        orders: vec![existing("37665702163", intent(OrderSide::Sell, d("2268.32"), d("0.003"), false))],
    };
    let current = ReconcileSnapshot { position: Some(position("-0.006", "2255.45")), orders: vec![] };

    let fill = engine
        .infer_fill_from_reconciliation(previous.position.as_ref(), current.position.as_ref(), &previous.orders, &current.orders)
        .unwrap();
    assert_eq!(fill.side, OrderSide::Sell);
    assert_eq!(fill.qty, d("0.003"));
    assert_eq!(fill.order_id.as_deref(), Some("37665702163"));
}

#[test]
fn estimates_fill_metrics_for_short_reduction() {
    let engine = ReconcileEngine::new("ETH_USDC_PERP", d("0.000000001"));
    let before = position("-0.006", "2262.38");
    let fill = fill(OrderSide::Buy, "0.003", "2252.48");
    let metrics = engine.estimate_fill_metrics(Some(&before), &fill);
    assert_eq!(metrics.position_after, d("-0.003"));
    assert_eq!(metrics.entry_price_after, d("2262.38"));
    assert_eq!(metrics.closed_qty, d("0.003"));
    assert_eq!(metrics.realized_pnl, d("0.0297"));
    assert!(!metrics.opening_fill);
}

#[test]
fn no_fill_within_epsilon() {
    let engine = ReconcileEngine::new("ETH_USDC_PERP", d("0.001"));
    let fill = engine.infer_fill_from_reconciliation(
        Some(&position("-0.003", "2255.45")),
        Some(&position("-0.0035", "2255.45")),
        &[],
        &[],
    );
    assert!(fill.is_none());
    let none_before = engine.infer_fill_from_reconciliation(None, Some(&position("0.002", "2255.45")), &[], &[]);
    let f = none_before.unwrap();
    assert_eq!(f.side, OrderSide::Buy);
    assert_eq!(f.qty, d("0.002"));
    assert!(f.order_id.is_none());
    assert!(f.price.is_none());
}

#[test]
fn inferred_fill_prefers_the_matching_quantity() {
    let engine = ReconcileEngine::new("ETH_USDC_PERP", d("0.000000001"));
    let previous = vec![
        existing("a", intent(OrderSide::Buy, d("2250"), d("0.006"), true)),
        existing("b", intent(OrderSide::Buy, d("2245"), d("0.003"), true)),
        existing("c", intent(OrderSide::Sell, d("2270"), d("0.003"), false)),
    ];
    let current = vec![existing("c", intent(OrderSide::Sell, d("2270"), d("0.003"), false))];
    let f = engine
        .infer_fill_from_reconciliation(Some(&position("-0.006", "2260")), Some(&position("-0.003", "2260")), &previous, &current)
        .unwrap();
    assert_eq!(f.order_id.as_deref(), Some("b"));
    assert_eq!(f.price, Some(d("2245")));
    assert_eq!(f.fee, Dec::zero());
    assert_eq!(f.source, FillSource::ReconciliationFallback);
}

#[test]
fn fill_metrics_for_opening_flattening_and_flipping() {
    let engine = ReconcileEngine::new("ETH_USDC_PERP", d("0.000000001"));
    let opening = engine.estimate_fill_metrics(None, &fill(OrderSide::Sell, "0.003", "2260"));
    assert!(opening.opening_fill);
    assert_eq!(opening.position_after, d("-0.003"));
    assert_eq!(opening.entry_price_after, d("2260"));

    let adding = engine.estimate_fill_metrics(Some(&position("-0.003", "2250")), &fill(OrderSide::Sell, "0.003", "2270"));
    assert!(adding.opening_fill);
    assert_eq!(adding.position_after, d("-0.006"));
    assert_eq!(adding.entry_price_after, d("2260"));
    assert_eq!(adding.realized_pnl, Dec::zero());

    let flat = engine.estimate_fill_metrics(Some(&position("-0.003", "2260")), &fill(OrderSide::Buy, "0.003", "2250"));
    assert_eq!(flat.position_after, Dec::zero());
    assert_eq!(flat.entry_price_after, Dec::zero());
    assert_eq!(flat.realized_pnl, d("0.03"));

    let flipped = engine.estimate_fill_metrics(Some(&position("-0.003", "2260")), &fill(OrderSide::Buy, "0.005", "2250"));
    assert_eq!(flipped.position_after, d("0.002"));
    assert_eq!(flipped.entry_price_after, d("2250"));
    assert_eq!(flipped.closed_qty, d("0.003"));
}

#[test]
fn replaying_the_inferred_fill_gives_the_current_position() {
    let engine = ReconcileEngine::new("ETH_USDC_PERP", d("0.000000001"));
    let before = position("-0.006", "2262.38");
    let after = position("-0.0045", "2262.38");
    let f = engine.infer_fill_from_reconciliation(Some(&before), Some(&after), &[], &[]).unwrap();
    let metrics = engine.estimate_fill_metrics(Some(&before), &f);
    assert_eq!(metrics.position_after, after.size);
}

#[test]
fn reconcile_diffs_and_infers() {
    let engine = ReconcileEngine::new("ETH_USDC_PERP", d("0.000000001"));
    let previous = ReconcileSnapshot {
        position: Some(position("-0.003", "2255.45")),
        orders: vec![existing("1", intent(OrderSide::Sell, d("2268.32"), d("0.003"), false))],
    };
    let current = ReconcileSnapshot {
        position: Some(position("-0.003", "2255.45")),
        orders: vec![existing("2", intent(OrderSide::Sell, d("2276.24"), d("0.003"), false))],
    };
    let desired = vec![
        intent(OrderSide::Sell, d("2268.32"), d("0.003"), false),
        intent(OrderSide::Sell, d("2276.240"), d("0.0030"), false),
    ];
    let out = engine.reconcile(&previous, &current, &desired);
    assert!(out.synthetic_fill.is_none());
    assert_eq!(out.diff.missing_on_exchange.len(), 1);
    assert_eq!(out.diff.missing_on_exchange[0].price, d("2268.32"));
    assert!(out.diff.unexpected_on_exchange.is_empty());
    assert_eq!(out.diff.matched, 1);
}

#[test]
fn diff_is_clean_when_the_exchange_holds_the_desired_keys() {
    let engine = ReconcileEngine::new("ETH_USDC_PERP", d("0.000000001"));
    let current = vec![
        existing("1", intent(OrderSide::Sell, d("2268.320"), d("0.003"), false)),
        existing("2", intent(OrderSide::Buy, d("2240.00"), d("0.0030"), true)),
    ];
    let desired = vec![
        intent(OrderSide::Buy, d("2240"), d("0.003"), true),
        intent(OrderSide::Sell, d("2268.32"), d("0.003"), false),
    ];
    let diff = engine.diff_orders(&current, &desired);
    assert!(diff.missing_on_exchange.is_empty());
    assert!(diff.unexpected_on_exchange.is_empty());
    assert_eq!(diff.matched, 2);
}

#[test]
fn diff_reports_every_drifted_order() {
    let engine = ReconcileEngine::new("ETH_USDC_PERP", d("0.000000001"));
    let current = vec![
        existing("1", intent(OrderSide::Sell, d("2268.32"), d("0.003"), false)),
        existing("2", intent(OrderSide::Sell, d("2299.99"), d("0.003"), false)),
    ];
    let desired = vec![
        intent(OrderSide::Sell, d("2268.32"), d("0.003"), false),
        intent(OrderSide::Buy, d("2240"), d("0.003"), true),
    ];
    let diff = engine.diff_orders(&current, &desired);
    assert_eq!(diff.unexpected_on_exchange.len(), 1);
    assert_eq!(diff.unexpected_on_exchange[0].order_id, "2");
    assert_eq!(diff.missing_on_exchange.len(), 1);
    assert_eq!(diff.missing_on_exchange[0].side, OrderSide::Buy);
    assert_eq!(diff.matched, 1);
}

#[test]
fn precision_noise_does_not_make_a_diff() {
    let engine = ReconcileEngine::new("ETH_USDC_PERP", d("0.000001"));
    let desired = vec![intent(OrderSide::Buy, d("2252.48"), d("0.003"), true)];
    let current = vec![existing("1", intent(OrderSide::Buy, d("2252.48"), d("0.0030000000000000005"), true))];
    let diff = engine.diff_orders(&current, &desired);
    assert!(diff.missing_on_exchange.is_empty());
    assert!(diff.unexpected_on_exchange.is_empty());
    assert_eq!(diff.matched, 1);

    let by_size = ReconcileEngine::for_order_size("ETH_USDC_PERP", d("0.000001"), d("0.003"));
    let current = vec![existing("1", intent(OrderSide::Buy, d("2252.48"), d("0.0030004"), true))];
    let diff = by_size.diff_orders(&current, &desired);
    assert_eq!(diff.matched, 1);
    let current = vec![existing("1", intent(OrderSide::Buy, d("2252.48"), d("0.004"), true))];
    let diff = by_size.diff_orders(&current, &desired);
    assert_eq!(diff.matched, 0);
}

#[test]
fn fill_metrics_take_noisy_quantities() {
    let engine = ReconcileEngine::new("ETH_USDC_PERP", d("0.000001"));
    let before = position("-0.003", "2260");
    let m = engine.estimate_fill_metrics(Some(&before), &fill(OrderSide::Buy, "0.0030000000000000005", "2250"));
    assert!(!m.opening_fill);
    assert_eq!(m.closed_qty, d("0.003"));
    assert_eq!(m.position_after, d("0.0000000000000000005"));
    assert_eq!(m.entry_price_after, d("2250"));
    assert_eq!(m.realized_pnl, d("0.030"));
}

#[test]
fn fills_are_inferred_beyond_small_magnitudes() {
    let engine = ReconcileEngine::new("ETH_USDC_PERP", d("0.000001"));
    let before = position("-500000000000000000000", "2255");
    let after = position("-499999999999999999999.997", "2255");
    let f = engine.infer_fill_from_reconciliation(Some(&before), Some(&after), &[], &[]).unwrap();
    assert_eq!(f.side, OrderSide::Buy);
    assert_eq!(f.qty, d("0.003"));
}
