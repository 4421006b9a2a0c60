use backpack_grid_bot::cycle::{cycle_notes, cycle_report, sync_when_paused, CycleCache};
use backpack_grid_bot::decimal::Dec;
use backpack_grid_bot::domain::GridMode;
use backpack_grid_bot::exchange::{
    build_signature_payload, client_id_from_digest, dry_run_final_orders, instruction_for, normalize_open_order, numeric_client_id,
    order_key_desired, plan_sync, OpenOrderRow,
};
use backpack_grid_bot::model::{DesiredOrder, OpenOrder, Position, Side};
use backpack_grid_bot::settings::{
    parse_bool, parse_decimal, parse_grid_mode, parse_optional_decimal, parse_u64, parse_usize, Config, SettingsError,
};
use backpack_grid_bot::strategy::{build_orders, client_id, normalize_price, normalize_qty, pause_applies};
use backpack_grid_bot::stream::{channel_topics, ws_open_order, WsSnapshot};

fn d(s: &str) -> Dec {
    let x: rust_decimal::Decimal = s.parse().unwrap();
    Dec { mantissa: x.mantissa(), scale: x.scale() }
}

fn config(mode: GridMode) -> Config {
    Config {
        symbol: "ETH_USDC_PERP".into(),
        levels: 5,
        spacing_bps: d("35"),
        order_size: d("0.003"),
        max_position_abs: d("0.02"),
        grid_mode: mode,
        grid_active_levels: 5,
        grid_short_bias_sell_ratio: 3,
        grid_min_price: None,
        grid_max_price: None,
        kill_switch: false,
        quote_asset: "USDC".into(),
        loop_interval_ms: 15000,
        run_once: true,
        state_path: "runtime/state.json".into(),
        events_path: "runtime/events.jsonl".into(),
        cycles_path: "runtime/cycles.jsonl".into(),
        live_enabled: false,
        ws_enabled: false,
        ws_url: None,
        api_base_url: "https://api.backpack.exchange".into(),
        api_key: String::new(),
        api_secret: String::new(),
    }
}

fn position(size: &str) -> Position {
    Position { symbol: "ETH_USDC_PERP".into(), size: d(size), entry_price: d("2260"), unrealized_pnl: Dec::zero() }
}

#[test]
fn short_only_grid_without_short_only_sells() {
    let (orders, paused, reason, issues) = build_orders(&config(GridMode::ShortOnly), d("2260.4"), &position("0"));
    assert!(!paused);
    assert!(reason.is_none());
    assert_eq!(orders.len(), 5);
    assert!(orders.iter().all(|o| o.side == Side::Sell && !o.reduce_only && o.post_only));
    assert!(orders.windows(2).all(|w| rust_decimal::Decimal::from_i128_with_scale(w[0].price.mantissa, w[0].price.scale)
        <= rust_decimal::Decimal::from_i128_with_scale(w[1].price.mantissa, w[1].price.scale)));
    assert!(issues.is_empty());
    assert_eq!(orders[0].price, d("2268.3114"));
    assert_eq!(orders[0].client_order_id, "grid-sell-1-2268.3114");
}

#[test]
fn short_only_grid_reduces_an_existing_short() {
    let (orders, _, _, issues) = build_orders(&config(GridMode::ShortOnly), d("2260.4"), &position("-0.005"));
    let buys: Vec<&DesiredOrder> = orders.iter().filter(|o| o.side == Side::Buy).collect();
    assert_eq!(buys.len(), 2);
    assert!(buys.iter().all(|o| o.reduce_only));
    assert_eq!(buys.iter().filter(|o| o.qty == d("0.002")).count(), 1);
    assert!(issues.is_empty());
    let sells = orders.iter().filter(|o| o.side == Side::Sell).count();
    assert_eq!(sells, 5);
}

#[test]
fn grid_pauses_on_kill_switch_and_price_band() {
    let mut c = config(GridMode::Neutral);
    c.kill_switch = true;
    let (orders, paused, reason, _) = build_orders(&c, d("2260.4"), &position("0"));
    assert!(orders.is_empty() && paused);
    assert_eq!(reason.as_deref(), Some("kill_switch"));
    let mut c = config(GridMode::Neutral);
    c.grid_min_price = Some(d("2300"));
    assert_eq!(build_orders(&c, d("2260.4"), &position("0")).2.as_deref(), Some("below_grid_min_price"));
    let mut c = config(GridMode::Neutral);
    c.grid_max_price = Some(d("2200"));
    assert_eq!(build_orders(&c, d("2260.4"), &position("0")).2.as_deref(), Some("above_grid_max_price"));
}

#[test]
fn sells_stop_at_the_hard_cap() {
    let mut c = config(GridMode::ShortBias);
    c.max_position_abs = d("0.009");
    let (orders, _, _, issues) = build_orders(&c, d("2260.4"), &position("0"));
    let sells = orders.iter().filter(|o| o.side == Side::Sell).count();
    let buys = orders.iter().filter(|o| o.side == Side::Buy).count();
    assert_eq!(buys, 3);
    assert_eq!(sells, 5);
    assert_eq!(issues.len(), 2);
    assert!(issues.iter().all(|i| i == "max_position_breached"));
    let mut c = config(GridMode::ShortOnly);
    c.max_position_abs = d("0.009");
    let (orders, _, _, issues) = build_orders(&c, d("2260.4"), &position("0"));
    assert_eq!(orders.len(), 3);
    assert_eq!(issues.len(), 2);
}

#[test]
fn strategy_rounding() {
    assert_eq!(normalize_qty(d("0.0034"), d("0.003")), d("0.003"));
    assert_eq!(normalize_qty(d("0.0034"), d("0")), Dec::zero());
    assert_eq!(normalize_qty(d("-1"), d("0.003")), Dec::zero());
    assert_eq!(normalize_price(d("2260.405")).scale, 3);
    assert_eq!(normalize_price(d("2260.4000")).scale, 2);
    assert_eq!(client_id(Side::Buy, 12, d("2252.480")), "grid-buy-12-2252.48");
}

fn open(id: &str, side: Side, price: &str, qty: &str) -> OpenOrder {
    OpenOrder {
        order_id: id.into(),
        client_order_id: format!("c-{id}"),
        symbol: "ETH_USDC_PERP".into(),
        side,
        price: d(price),
        qty: d(qty),
        reduce_only: false,
        post_only: true,
        status: "Open".into(),
    }
}

fn want(side: Side, price: &str, qty: &str) -> DesiredOrder {
    DesiredOrder {
        client_order_id: format!("grid-{price}"),
        symbol: "ETH_USDC_PERP".into(),
        side,
        price: d(price),
        qty: d(qty),
        reduce_only: false,
        post_only: true,
    }
}

#[test]
fn sync_plan_places_missing_and_cancels_extra() {
    let desired = vec![want(Side::Sell, "2268.31", "0.003"), want(Side::Sell, "2276.22", "0.003")];
    let existing = vec![open("1", Side::Sell, "2268.310", "0.0030"), open("2", Side::Sell, "2290", "0.003")];
    let (place, cancel, matched) = plan_sync(&desired, &existing);
    assert_eq!(place.len(), 1);
    assert_eq!(place[0].price, d("2276.22"));
    assert_eq!(cancel.len(), 1);
    assert_eq!(cancel[0].order_id, "2");
    assert_eq!(matched, 1);
    assert_eq!(order_key_desired(&desired[0]), "Sell:2268.31:0.003:false:true");
}

#[test]
fn dry_run_sync_is_quiet_the_second_time() {
    let desired = vec![want(Side::Sell, "2268.31", "0.003"), want(Side::Buy, "2252.49", "0.003")];
    let finals = dry_run_final_orders(&desired);
    assert_eq!(finals.len(), 2);
    assert_eq!(finals[0].order_id, "dryrun:grid-2268.31");
    assert_eq!(finals[1].status, "open");
    let (place, cancel, matched) = plan_sync(&desired, &finals);
    assert!(place.is_empty());
    assert!(cancel.is_empty());
    assert_eq!(matched, 2);
}

#[test]
fn signing_payload_and_instructions() {
    let params = vec![
        ("symbol".to_string(), "ETH_USDC_PERP".to_string()),
        ("orderId".to_string(), String::new()),
        ("clientId".to_string(), "7".to_string()),
    ];
    assert_eq!(
        build_signature_payload("orderExecute", &params, 1700000000000, "5000"),
        "instruction=orderExecute&clientId=7&symbol=ETH_USDC_PERP&timestamp=1700000000000&window=5000"
    );
    assert_eq!(build_signature_payload("x", &[], -5, "1"), "instruction=x&timestamp=-5&window=1");
    assert_eq!(instruction_for("/api/v1/orders"), "orderQueryAll");
    assert_eq!(instruction_for("/api/v1/capital/collateral"), "collateralQuery");
    assert_eq!(instruction_for("/api/v1/other"), "accountQuery");
}

#[test]
fn numeric_client_ids_follow_the_md5_digest() {
    let digest = md5::compute("grid-sell-1-2268.31".as_bytes()).0;
    let expected = u32::from_be_bytes([digest[0], digest[1], digest[2], digest[3]]).max(1);
    assert_eq!(numeric_client_id("grid-sell-1-2268.31"), expected);
    assert_ne!(numeric_client_id("a"), numeric_client_id("b"));
}

#[test]
fn open_order_rows() {
    let row = OpenOrderRow {
        order_id: Some("5".into()),
        side: Some("Ask".into()),
        price: Some(d("2260.4")),
        qty: Some(d("0.003")),
        ..Default::default()
    };
    let o = normalize_open_order(&row, "ETH_USDC_PERP").unwrap();
    assert_eq!(o.side, Side::Sell);
    assert_eq!(o.symbol, "ETH_USDC_PERP");
    assert_eq!(o.status, "Open");
    let filled = OpenOrderRow { status: Some("Filled".into()), ..Default::default() };
    assert!(normalize_open_order(&filled, "X").is_none());
    let lower_ask = OpenOrderRow { side: Some("ask".into()), ..Default::default() };
    assert_eq!(normalize_open_order(&lower_ask, "X").unwrap().side, Side::Buy);
    assert!(ws_open_order(&OpenOrderRow::default()).is_none());
    assert_eq!(ws_open_order(&row).unwrap().symbol, "");
}

#[test]
fn settings_parse_like_the_environment_reader() {
    assert!(parse_bool(Some("YES"), false));
    assert!(!parse_bool(Some("no"), true));
    assert!(parse_bool(None, true));
    assert_eq!(parse_decimal("GRID_ORDER_SIZE", None, "0.003").unwrap(), d("0.003"));
    assert_eq!(
        parse_decimal("GRID_ORDER_SIZE", Some("abc"), "0.003"),
        Err(SettingsError::InvalidDecimal("GRID_ORDER_SIZE".into()))
    );
    assert_eq!(parse_optional_decimal("GRID_MIN_PRICE", Some("  ")).unwrap(), None);
    assert_eq!(parse_optional_decimal("GRID_MIN_PRICE", Some("2200")).unwrap(), Some(d("2200")));
    assert_eq!(parse_usize("GRID_LEVELS", Some("0"), 5).unwrap(), 1);
    assert_eq!(parse_usize("GRID_LEVELS", Some("+7"), 5).unwrap(), 7);
    assert_eq!(parse_usize("GRID_LEVELS", None, 5).unwrap(), 5);
    assert!(parse_usize("GRID_LEVELS", Some("-1"), 5).is_err());
    assert!(parse_usize("GRID_LEVELS", Some(""), 5).is_err());
    assert_eq!(parse_u64("X", Some("18446744073709551615"), 1).unwrap(), u64::MAX);
    assert!(parse_u64("X", Some("18446744073709551616"), 1).is_err());
    assert_eq!(parse_grid_mode("short_bias"), Ok(GridMode::ShortBias));
    assert_eq!(parse_grid_mode("Short_Only"), Err(SettingsError::InvalidGridMode));
    assert_eq!(SettingsError::InvalidU64("X".into()).message(), "invalid u64 env X");
}

#[test]
fn cycle_cache_reads_every_fourth_cycle() {
    let mut cache = CycleCache::new();
    let plan = cache.refresh_plan();
    assert!(plan.mark_price && plan.position && plan.orders);
    cache.ingest_snapshot(WsSnapshot { mark_price: Some(d("2260.4")), position: Some(position("0")), open_orders: Some(vec![]) });
    cache.finish_reads();
    let plan = cache.refresh_plan();
    assert!(!plan.mark_price && !plan.position && !plan.orders);
    cache.finish_reads();
    cache.finish_reads();
    cache.finish_reads();
    assert!(cache.refresh_plan().mark_price);
    let mut fresh = CycleCache::new();
    fresh.rest_cycle_counter = 1;
    assert!(fresh.refresh_plan().orders);
}

#[test]
fn cycle_notes_and_report() {
    assert_eq!(
        cycle_notes(false, false, true, &Some("kill_switch".into())),
        vec!["cycle executed in dry-run mode".to_string(), "ws unavailable, rest only mode".into(), "kill_switch".into()]
    );
    assert_eq!(cycle_notes(true, true, false, &None).len(), 2);
    let existing = vec![open("1", Side::Sell, "2290", "0.003")];
    let sync = sync_when_paused(&existing);
    assert_eq!(sync.final_orders, existing);
    let report = cycle_report(
        &config(GridMode::ShortOnly),
        "t".into(),
        d("2260.4"),
        &position("-0.03"),
        0,
        1,
        &sync,
        true,
        Some("kill_switch".into()),
        vec![],
    );
    assert_eq!(report.mode, "dry_run");
    assert_eq!(report.issues, vec!["position_already_over_limit".to_string()]);
    assert_eq!(report.existing_orders, 1);
}

#[test]
fn channel_topics_ignore_case() {
    assert_eq!(channel_topics("markPrice.ETH"), (true, false, false));
    assert_eq!(channel_topics("account.positionUpdate"), (false, true, false));
    assert_eq!(channel_topics("account.ORDERUPDATE"), (false, false, true));
    assert_eq!(channel_topics(""), (false, false, false));
}

#[test]
fn client_ids_from_digests_are_big_endian_and_positive() {
    let mut digest = [0u8; 16];
    digest[0] = 0x12;
    digest[1] = 0x34;
    digest[2] = 0x56;
    digest[3] = 0x78;
    digest[4] = 0xff;
    assert_eq!(client_id_from_digest(&digest), 0x12345678);
    assert_eq!(client_id_from_digest(&[0u8; 16]), 1);
    assert_eq!(client_id_from_digest(&[0xff; 16]), u32::MAX);
}

#[test]
fn buys_stop_at_the_hard_cap() {
    let c = config(GridMode::Neutral);
    let (orders, paused, _, issues) = build_orders(&c, d("2260.4"), &position("0.02"));
    assert!(!paused);
    let buys = orders.iter().filter(|o| o.side == Side::Buy).count();
    assert_eq!(buys, 0);
    assert_eq!(issues.iter().filter(|i| *i == "max_position_breached").count(), 5);
    let mut projected = d("0.02");
    for o in &orders {
        let q = rust_decimal::Decimal::from_i128_with_scale(o.qty.mantissa, o.qty.scale);
        let p = rust_decimal::Decimal::from_i128_with_scale(projected.mantissa, projected.scale);
        let next = if o.side == Side::Buy { p + q } else { p - q };
        assert!(next.abs() <= rust_decimal::Decimal::new(2, 2));
        projected = Dec { mantissa: next.mantissa(), scale: next.scale() };
    }
}

#[test]
fn pauses_need_no_range_check() {
    let huge = Dec { mantissa: 79228162514264337593543950335, scale: 0 };
    let mut c = config(GridMode::Neutral);
    c.kill_switch = true;
    assert!(pause_applies(&c, &huge));
    let (orders, paused, reason, _) = build_orders(&c, huge, &position("0"));
    assert!(orders.is_empty() && paused);
    assert_eq!(reason.as_deref(), Some("kill_switch"));
    let mut c = config(GridMode::Neutral);
    c.grid_max_price = Some(d("3000"));
    assert!(pause_applies(&c, &huge));
    assert!(!pause_applies(&c, &d("2260.4")));
    assert_eq!(build_orders(&c, huge, &position("0")).2.as_deref(), Some("above_grid_max_price"));
}

#[test]
fn grids_build_at_large_marks() {
    let c = config(GridMode::Neutral);
    let (orders, paused, _, _) = build_orders(&c, d("5000000000000000"), &position("0"));
    assert!(!paused);
    assert_eq!(orders.len(), 10);
    assert_eq!(orders[0].price, d("4912500000000000.00"));
}
