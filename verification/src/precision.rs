//! Decimal precision rules: quantities and positions are held at the
//! precision of the configured order size, prices at no fewer than two places.

use crate::decimal::{
    dec_normalize, dec_round_dp, lemma_normalized_of, lemma_pow10_add, lemma_pow10_positive, lemma_round_dp_of, normalized_of,
    pow10, round_dp_of, Dec,
};
use vstd::prelude::*;

verus! {

/// The decimal places an order size carries once trailing zeros are dropped.
pub open spec fn order_precision_spec(order_size: Dec) -> nat {
    normalized_of(order_size).scale as nat
}

/// `value` rounded half to even at `scale` places, trailing zeros dropped.
pub open spec fn normalize_to_scale_spec(value: Dec, scale: nat) -> Dec {
    normalized_of(round_dp_of(value, scale))
}

/// A quantity at the precision of the order size.
pub open spec fn normalize_qty_spec(raw: Dec, order_size: Dec) -> Dec {
    normalize_to_scale_spec(raw, order_precision_spec(order_size))
}

/// `10^-(d + 3)` where `d` is the order size's precision.
pub open spec fn flip_epsilon_spec(order_size: Dec) -> Dec {
    Dec { mantissa: 1, scale: (order_precision_spec(order_size) + 3) as u32 }
}

/// Rounding to a scale keeps a decimal well formed and never raises its scale.
pub proof fn lemma_normalize_to_scale(value: Dec, scale: nat)
    requires
        value.wf(),
    ensures
        normalize_to_scale_spec(value, scale).wf(),
        normalize_to_scale_spec(value, scale).scale <= value.scale,
        normalize_to_scale_spec(value, scale).scale <= scale,
        normalize_to_scale_spec(value, scale)@ == round_dp_of(value, scale)@,
{
    lemma_round_dp_of(value, scale);
    lemma_normalized_of(round_dp_of(value, scale));
    if round_dp_of(value, scale) == value && value.scale > scale {
        assert(false);
    }
}

pub fn normalize_decimal(value: Dec) -> (r: Dec)
    requires
        value.wf(),
    ensures
        r == normalized_of(value),
        r.wf(),
        r@ == value@,
{
    proof {
        lemma_normalized_of(value);
    }
    dec_normalize(value)
}

pub fn normalize_to_scale(value: Dec, scale: u32) -> (r: Dec)
    requires
        value.wf(),
    ensures
        r == normalize_to_scale_spec(value, scale as nat),
        r.wf(),
{
    proof {
        lemma_normalize_to_scale(value, scale as nat);
        lemma_round_dp_of(value, scale as nat);
    }
    dec_normalize(dec_round_dp(value, scale))
}

pub fn order_precision_decimals(order_size: Dec) -> (r: u32)
    requires
        order_size.wf(),
    ensures
        r == order_precision_spec(order_size),
        r <= 28,
{
    proof {
        lemma_normalized_of(order_size);
    }
    normalize_decimal(order_size).scale
}

pub fn price_precision_decimals(price: Dec) -> (r: u32)
    requires
        price.wf(),
    ensures
        r == (if normalized_of(price).scale < 2 {
            2
        } else {
            normalized_of(price).scale
        }),
{
    let s = normalize_decimal(price).scale;
    if s < 2 {
        2
    } else {
        s
    }
}

pub fn normalize_order_qty(raw_qty: Dec, order_size: Dec) -> (r: Dec)
    requires
        raw_qty.wf(),
        order_size.wf(),
    ensures
        r == normalize_qty_spec(raw_qty, order_size),
        r.wf(),
{
    normalize_to_scale(raw_qty, order_precision_decimals(order_size))
}

pub fn normalize_position_size(raw_size: Dec, order_size: Dec) -> (r: Dec)
    requires
        raw_size.wf(),
        order_size.wf(),
    ensures
        r == normalize_qty_spec(raw_size, order_size),
        r.wf(),
{
    normalize_to_scale(raw_size, order_precision_decimals(order_size))
}

pub fn short_only_long_flip_epsilon(order_size: Dec) -> (r: Dec)
    requires
        order_size.wf(),
        order_precision_spec(order_size) <= 25,
    ensures
        r == flip_epsilon_spec(order_size),
        r.wf(),
{
    let decimals = order_precision_decimals(order_size);
    Dec::new(1, decimals + 3)
}

/// The long-flip epsilon is positive and a thousandth of one step at the
/// order size's precision: tighter than any quantity an order can carry.
pub proof fn lemma_flip_epsilon_is_tighter(order_size: Dec)
    requires
        order_size.wf(),
        order_precision_spec(order_size) <= 25,
    ensures
        flip_epsilon_spec(order_size)@ > 0,
        1000 * flip_epsilon_spec(order_size)@ == (Dec { mantissa: 1, scale: order_precision_spec(order_size) as u32 })@,
{
    let d = order_precision_spec(order_size);
    lemma_pow10_add((25 - d) as nat, 3);
    lemma_pow10_positive((25 - d) as nat);
    assert(pow10(3) == 1000) by {
        reveal_with_fuel(pow10, 4);
    }
    assert((25 - d) as nat + 3 == (28 - d) as nat);
}

/// Normalizing a quantity that is already at the order size's precision
/// leaves it unchanged.
pub proof fn lemma_normalize_qty_idempotent(raw: Dec, order_size: Dec)
    requires
        raw.wf(),
        order_size.wf(),
    ensures
        normalize_qty_spec(normalize_qty_spec(raw, order_size), order_size) == normalize_qty_spec(
            raw,
            order_size,
        ),
{
    let p = order_precision_spec(order_size);
    let once = normalize_qty_spec(raw, order_size);
    lemma_normalize_to_scale(raw, p);
    lemma_round_dp_of(raw, p);
    assert(round_dp_of(once, p) == once);
    lemma_normalized_fixed(round_dp_of(raw, p));
}

/// A decimal without trailing zeros is its own normal form.
pub proof fn lemma_normalized_fixed(a: Dec)
    requires
        a.wf(),
    ensures
        normalized_of(normalized_of(a)) == normalized_of(a),
{
    crate::decimal::lemma_normalized(a.mantissa as int, a.scale as nat);
    let n = normalized_of(a);
    lemma_normalized_of(a);
    if n.scale > 0 {
        assert(n.mantissa as int % 10 != 0);
    }
}

} // verus!
