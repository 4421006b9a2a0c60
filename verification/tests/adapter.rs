use backpack_grid_bot::adapter::backpack::{BackpackAdapterError, BackpackNormalize};
use backpack_grid_bot::adapter::client::{base_url_of, normalize_existing_order};
use backpack_grid_bot::adapter::dto::{BackpackCollateralRow, BackpackCollateralSummary, BackpackOrderRow, BackpackPositionRow};
use backpack_grid_bot::decimal::Dec;
use backpack_grid_bot::domain::{OrderIntent, OrderSide, OrderType};

fn d(s: &str) -> Dec {
    let x: rust_decimal::Decimal = s.parse().unwrap();
    Dec { mantissa: x.mantissa(), scale: x.scale() }
}

#[test]
fn normalizes_array_position_payload() {
    let rows = vec![
        BackpackPositionRow {
            symbol: Some("BTC_USDC_PERP".into()),
            net_quantity: Some(d("0.1")),
            entry_price: Some(d("50000")),
            ..Default::default()
        },
        BackpackPositionRow {
            symbol: Some("ETH_USDC_PERP".into()),
            net_quantity: Some(d("-0.003")),
            average_entry_price: Some(d("2255.45")),
            pnl: Some(d("1.2")),
            ..Default::default()
        },
    ];
    let position = BackpackNormalize::normalize_position(&rows, "ETH_USDC_PERP");
    assert_eq!(position.size, d("-0.003"));
    assert_eq!(position.entry_price, d("2255.45"));
    assert_eq!(position.unrealized_pnl, d("1.2"));
}

#[test]
fn normalizes_collateral_summary() {
    let summary = BackpackCollateralSummary {
        net_equity: Some(d("149.394572")),
        net_equity_available: Some(d("147.359132")),
        collateral: vec![BackpackCollateralRow {
            symbol: Some("USDC".into()),
            total_quantity: Some(d("149.394572")),
            available_quantity: Some(d("147.359132")),
            balance_notional: None,
        }],
    };
    let (total, available) = BackpackNormalize::collateral_available(&summary, "USDC").unwrap();
    assert_eq!(total, d("149.394572"));
    assert_eq!(available, d("147.359132"));
}

#[test]
fn filters_open_orders() {
    let rows = vec![
        BackpackOrderRow {
            order_id: Some("1".into()),
            status: Some("Open".into()),
            symbol: Some("ETH_USDC_PERP".into()),
            side: Some("Ask".into()),
            order_type: Some("Limit".into()),
            price: Some(d("2260.4")),
            quantity: Some(d("0.003")),
            reduce_only: Some(false),
            post_only: Some(true),
            ..Default::default()
        },
        BackpackOrderRow {
            order_id: Some("2".into()),
            status: Some("Filled".into()),
            symbol: Some("ETH_USDC_PERP".into()),
            side: Some("Bid".into()),
            order_type: Some("Limit".into()),
            price: Some(d("2252.48")),
            quantity: Some(d("0.003")),
            reduce_only: Some(true),
            post_only: Some(true),
            ..Default::default()
        },
    ];
    let orders = BackpackNormalize::open_orders_from_payload(&rows);
    assert_eq!(orders.len(), 1);
    let intent = BackpackNormalize::normalize_order(&orders[0], None).unwrap();
    assert_eq!(intent.side, OrderSide::Sell);
    assert_eq!(intent.qty, d("0.003"));
}

#[test]
fn maps_sides_types_and_statuses() {
    assert_eq!(BackpackNormalize::map_side("ASK"), OrderSide::Sell);
    assert_eq!(BackpackNormalize::map_side("sell"), OrderSide::Sell);
    assert_eq!(BackpackNormalize::map_side("Bid"), OrderSide::Buy);
    assert_eq!(BackpackNormalize::map_order_type(Some("MARKET")), OrderType::Market);
    assert_eq!(BackpackNormalize::map_order_type(None), OrderType::Limit);
    assert!(BackpackNormalize::is_open_status(None));
    assert!(BackpackNormalize::is_open_status(Some("accepted")));
    assert!(!BackpackNormalize::is_open_status(Some("OPEN")));
}

#[test]
fn position_falls_back_to_the_first_row_then_flat() {
    let rows = vec![BackpackPositionRow {
        symbol: Some("BTC_USDC_PERP".into()),
        quantity: Some(d("0.1")),
        entry_price: Some(d("50000")),
        ..Default::default()
    }];
    let p = BackpackNormalize::normalize_position(&rows, "ETH_USDC_PERP");
    assert_eq!(p.symbol, "ETH_USDC_PERP");
    assert_eq!(p.size, d("0.1"));
    let none = BackpackNormalize::normalize_position(&[], "ETH_USDC_PERP");
    assert_eq!(none.size, Dec::zero());
    assert!(BackpackNormalize::normalize_position_payload(&[], "ETH_USDC_PERP").is_none());
}

#[test]
fn order_fields_fall_back_to_the_intent() {
    let fallback = OrderIntent {
        client_order_id: "grid-buy-1-225248".into(),
        symbol: "ETH_USDC_PERP".into(),
        side: OrderSide::Buy,
        order_type: OrderType::Limit,
        price: d("2252.48"),
        qty: d("0.003"),
        reduce_only: true,
        post_only: true,
    };
    let row = BackpackOrderRow { qty: Some(d("0.002")), ..Default::default() };
    let intent = BackpackNormalize::normalize_order(&row, Some(&fallback)).unwrap();
    assert_eq!(intent.symbol, "ETH_USDC_PERP");
    assert_eq!(intent.qty, d("0.002"));
    assert_eq!(intent.price, d("2252.48"));
    assert!(intent.reduce_only);
    assert!(BackpackNormalize::normalize_order(&row, None).is_none());
}

#[test]
fn existing_orders_take_ids_from_the_row() {
    let row = BackpackOrderRow {
        id: Some("77".into()),
        client_id: Some("c-1".into()),
        symbol: Some("ETH_USDC_PERP".into()),
        ..Default::default()
    };
    let order = normalize_existing_order(&row).unwrap();
    assert_eq!(order.order_id, "77");
    assert_eq!(order.client_order_id, "c-1");
    assert_eq!(order.intent.client_order_id, "c-1");
    assert!(normalize_existing_order(&BackpackOrderRow::default()).is_none());
}

#[test]
fn collateral_falls_back_to_the_asset_row() {
    let summary = BackpackCollateralSummary {
        net_equity: Some(d("0")),
        net_equity_available: Some(d("0")),
        collateral: vec![
            BackpackCollateralRow { symbol: Some("BTC".into()), ..Default::default() },
            BackpackCollateralRow {
                symbol: Some("USDC".into()),
                total_quantity: None,
                available_quantity: None,
                balance_notional: Some(d("12.5")),
            },
        ],
    };
    assert_eq!(BackpackNormalize::collateral_available(&summary, "USDC"), Some((d("12.5"), d("12.5"))));
    assert_eq!(BackpackNormalize::collateral_available(&summary, "SOL"), None);
}

#[test]
fn base_url_and_error_text() {
    assert_eq!(base_url_of("https://api.backpack.exchange//"), "https://api.backpack.exchange");
    assert_eq!(BackpackAdapterError::InvalidPayload("ticker").message(), "invalid json payload shape for ticker");
}
