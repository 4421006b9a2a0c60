use backpack_grid_bot::config::AppConfig;
use backpack_grid_bot::decimal::Dec;
use backpack_grid_bot::domain::{GridMode, OrderSide, Position, RiskDecision, RiskReason};
use backpack_grid_bot::risk::RiskEngine;

fn d(s: &str) -> Dec {
    let x: rust_decimal::Decimal = s.parse().unwrap();
    Dec { mantissa: x.mantissa(), scale: x.scale() }
}

fn cfg() -> AppConfig {
    AppConfig {
        symbol: "ETH_USDC_PERP".into(),
        levels: 5,
        spacing_bps: d("50"),
        order_size: d("0.003"),
        max_position_abs: d("0.02"),
        grid_mode: GridMode::ShortOnly,
        grid_active_levels: 5,
        grid_short_bias_sell_ratio: d("3"),
        grid_min_price: None,
        grid_max_price: None,
        leverage: d("10"),
        quote_asset: "USDC".into(),
        kill_switch: false,
    }
}

fn short(size: &str) -> Position {
    Position { symbol: "ETH_USDC_PERP".into(), size: d(size), entry_price: d("2260.40"), unrealized_pnl: Dec::zero() }
}

#[test]
fn blocks_short_only_long_flip() {
    let engine = RiskEngine::new(cfg());
    let decision = engine.validate_new_order(&short("-0.003"), OrderSide::Buy, d("0.006"));
    assert_eq!(decision.reason, Some(RiskReason::ShortOnlyLongFlipBlocked));
}

#[test]
fn allows_exact_flatten_with_epsilon() {
    let engine = RiskEngine::new(cfg());
    let decision = engine.validate_new_order(&short("-0.003"), OrderSide::Buy, d("0.003"));
    assert!(decision.ok);
}

#[test]
fn kill_switch_rejects_every_order() {
    let mut config = cfg();
    config.kill_switch = true;
    let engine = RiskEngine::new(config);
    let decision = engine.validate_new_order(&short("-0.003"), OrderSide::Sell, d("0.003"));
    assert_eq!(decision, RiskDecision { ok: false, reason: Some(RiskReason::KillSwitchEnabled) });
}

#[test]
fn rejects_non_positive_quantity() {
    let engine = RiskEngine::new(cfg());
    let decision = engine.validate_new_order(&short("0"), OrderSide::Sell, d("0"));
    assert_eq!(decision.reason, Some(RiskReason::QtyMustBePositive));
}

#[test]
fn rejects_sells_beyond_the_hard_cap() {
    let engine = RiskEngine::new(cfg());
    let decision = engine.validate_new_order(&short("-0.018"), OrderSide::Sell, d("0.003"));
    assert_eq!(decision.reason, Some(RiskReason::MaxPositionBreached));
    let within = engine.validate_new_order(&short("-0.017"), OrderSide::Sell, d("0.003"));
    assert_eq!(within, RiskDecision::allow());
}
