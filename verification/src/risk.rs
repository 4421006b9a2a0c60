//! Risk checks on a new order: the kill switch, a positive quantity, the
//! short-only rule against going net long and the hard cap on the absolute
//! position.

use crate::config::AppConfig;
use crate::decimal::{abs_int, dec_add, safe_limit, sum_of, Dec};
use crate::domain::{GridMode, OrderSide, Position, RiskDecision, RiskReason};
use crate::precision::{flip_epsilon_spec, order_precision_spec, short_only_long_flip_epsilon};
use vstd::prelude::*;

verus! {

/// The quantity with the sign of its effect on the position.
pub open spec fn signed_qty_spec(side: OrderSide, qty: Dec) -> Dec {
    match side {
        OrderSide::Buy => qty,
        OrderSide::Sell => Dec { mantissa: (-qty.mantissa) as i128, scale: qty.scale },
    }
}

pub open spec fn signed_value(side: OrderSide, qty: Dec) -> int {
    match side {
        OrderSide::Buy => qty@,
        OrderSide::Sell => -qty@,
    }
}

/// The position an order would leave behind.
pub open spec fn projected_spec(size: Dec, side: OrderSide, qty: Dec) -> Dec {
    sum_of(size, signed_qty_spec(side, qty))
}

/// The decision on a new order of `qty` on `side` against a position of `size`.
pub open spec fn risk_decision_spec(
    config: AppConfig,
    epsilon: Dec,
    size: Dec,
    side: OrderSide,
    qty: Dec,
) -> RiskDecision {
    if config.kill_switch {
        RiskDecision { ok: false, reason: Some(RiskReason::KillSwitchEnabled) }
    } else if qty@ <= 0 {
        RiskDecision { ok: false, reason: Some(RiskReason::QtyMustBePositive) }
    } else {
        let projected = projected_spec(size, side, qty);
        if config.grid_mode == GridMode::ShortOnly && projected@ > epsilon@ {
            RiskDecision { ok: false, reason: Some(RiskReason::ShortOnlyLongFlipBlocked) }
        } else if abs_int(projected@) > config.max_position_abs@ {
            RiskDecision { ok: false, reason: Some(RiskReason::MaxPositionBreached) }
        } else {
            RiskDecision { ok: true, reason: None }
        }
    }
}

/// The arithmetic of a risk check stays within the decimal range.
pub open spec fn risk_inputs_ok(config: AppConfig, size: Dec, side: OrderSide, qty: Dec) -> bool {
    &&& size.wf()
    &&& qty.wf()
    &&& config.max_position_abs.wf()
    &&& (!config.kill_switch && qty@ > 0 ==> -safe_limit() <= size@ + signed_value(side, qty) <= safe_limit())
}

#[derive(Debug)]
pub struct RiskEngine {
    config: AppConfig,
    short_only_long_flip_epsilon: Dec,
}

impl Clone for RiskEngine {
    fn clone(&self) -> (r: Self)
        ensures
            r == *self,
    {
        RiskEngine { config: self.config.clone(), short_only_long_flip_epsilon: self.short_only_long_flip_epsilon }
    }
}

impl RiskEngine {
    pub closed spec fn config_view(&self) -> AppConfig {
        self.config
    }

    pub closed spec fn epsilon_view(&self) -> Dec {
        self.short_only_long_flip_epsilon
    }

    pub fn new(config: AppConfig) -> (r: RiskEngine)
        requires
            config.order_size.wf(),
            order_precision_spec(config.order_size) <= 25,
        ensures
            r.config_view() == config,
            r.epsilon_view() == flip_epsilon_spec(config.order_size),
            r.epsilon_view().wf(),
    {
        let epsilon = short_only_long_flip_epsilon(config.order_size);
        RiskEngine { config, short_only_long_flip_epsilon: epsilon }
    }

    pub fn validate_new_order(&self, position: &Position, side: OrderSide, qty: Dec) -> (r: RiskDecision)
        requires
            self.epsilon_view().wf(),
            risk_inputs_ok(self.config_view(), position.size, side, qty),
        ensures
            r == risk_decision_spec(self.config_view(), self.epsilon_view(), position.size, side, qty),
            r.ok ==> r.reason is None,
            !r.ok ==> r.reason is Some,
    {
        if self.config.kill_switch {
            return RiskDecision::reject(RiskReason::KillSwitchEnabled);
        }
        if qty.at_most(&Dec::zero()) {
            return RiskDecision::reject(RiskReason::QtyMustBePositive);
        }
        let signed_qty = match side {
            OrderSide::Buy => qty,
            OrderSide::Sell => qty.neg(),
        };
        let projected = dec_add(position.size, signed_qty);
        if self.config.grid_mode == GridMode::ShortOnly && self.short_only_long_flip_epsilon.less_than(
            &projected,
        ) {
            return RiskDecision::reject(RiskReason::ShortOnlyLongFlipBlocked);
        }
        if self.config.max_position_abs.less_than(&projected.abs()) {
            return RiskDecision::reject(RiskReason::MaxPositionBreached);
        }
        RiskDecision::allow()
    }
}

/// An allowed order has a positive quantity, keeps the absolute position
/// within the hard cap, and in short-only mode never takes it above epsilon.
pub proof fn lemma_allowed_order_within_limits(
    config: AppConfig,
    epsilon: Dec,
    size: Dec,
    side: OrderSide,
    qty: Dec,
)
    requires
        risk_decision_spec(config, epsilon, size, side, qty).ok,
    ensures
        !config.kill_switch,
        qty@ > 0,
        abs_int(projected_spec(size, side, qty)@) <= config.max_position_abs@,
        config.grid_mode == GridMode::ShortOnly ==> projected_spec(size, side, qty)@ <= epsilon@,
{
}

/// With the kill switch on, every order is rejected for that reason.
pub proof fn lemma_kill_switch_rejects_all(config: AppConfig, epsilon: Dec, size: Dec, side: OrderSide, qty: Dec)
    requires
        config.kill_switch,
    ensures
        risk_decision_spec(config, epsilon, size, side, qty) == (RiskDecision {
            ok: false,
            reason: Some(RiskReason::KillSwitchEnabled),
        }),
{
}

} // verus!
