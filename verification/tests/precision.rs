use backpack_grid_bot::decimal::Dec;
use backpack_grid_bot::precision::{
    normalize_order_qty, normalize_position_size, order_precision_decimals, price_precision_decimals,
    short_only_long_flip_epsilon,
};

fn d(s: &str) -> Dec {
    let x: rust_decimal::Decimal = s.parse().unwrap();
    Dec { mantissa: x.mantissa(), scale: x.scale() }
}

#[test]
fn qty_normalization_matches_order_size_scale() {
    assert_eq!(normalize_order_qty(d("0.0030000000000000005"), d("0.003")), d("0.003"));
    assert_eq!(normalize_position_size(d("-0.009000000000000001"), d("0.003")), d("-0.009"));
}

#[test]
fn epsilon_is_tighter_than_order_precision() {
    assert_eq!(short_only_long_flip_epsilon(d("0.003")), d("0.000001"));
    assert_eq!(short_only_long_flip_epsilon(d("1")), d("0.001"));
}

#[test]
fn precision_counts_places_of_the_normalized_value() {
    assert_eq!(order_precision_decimals(d("0.0030")), 3);
    assert_eq!(order_precision_decimals(d("10")), 0);
    assert_eq!(price_precision_decimals(d("2260.400")), 2);
    assert_eq!(price_precision_decimals(d("2260.125")), 3);
}

#[test]
fn normalized_quantity_is_a_fixed_point() {
    let once = normalize_order_qty(d("0.0034999"), d("0.003"));
    assert_eq!(once, d("0.003"));
    assert_eq!(normalize_order_qty(once, d("0.003")), once);
}
