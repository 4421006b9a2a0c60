//! The order-sync bot's grid: buy and sell orders stepped away from the mark
//! price, gated by short-only and position limits, sorted by price.

use crate::decimal::{
    abs_int, add_either, dec_normalize, dec_round_dp, dec_to_string, difference_of, div_within, lemma_normalized_of,
    lemma_round_dp_bound, lemma_round_dp_of, lemma_value_bound, max_mantissa, mul_either, normalized_of, product_of,
    quotient_of, round_dp_of, safe_limit, sub_either, sum_of, text_of, unit, within, Dec,
};
use crate::domain::GridMode;
use crate::model::{desired_views, DesiredOrder, DesiredOrderView, Position, Side};
use crate::planner::input_bound;
use crate::settings::Config;
use crate::sort::{insertion_sorted, keyed_map, keys_wf, lemma_insertion_sorted_items, lemma_insertion_sorted_map, stable_sort_by_key};
use crate::text::{decimal_digits, usize_text};
use vstd::prelude::*;
use vstd::string::StringExecFns;

verus! {

pub open spec fn max_nat(a: nat, b: nat) -> nat {
    if a < b {
        b
    } else {
        a
    }
}

pub open spec fn min_nat(a: nat, b: nat) -> nat {
    if a <= b {
        a
    } else {
        b
    }
}

/// `value` at the precision of `step`; zero when either is not positive.
pub open spec fn strategy_qty_spec(value: Dec, step: Dec) -> Dec {
    if step@ <= 0 || value@ <= 0 {
        Dec::zero_spec()
    } else {
        round_dp_of(value, normalized_of(step).scale as nat)
    }
}

/// `value` rounded to its own precision, but to no fewer than two places.
pub open spec fn strategy_price_spec(value: Dec) -> Dec {
    round_dp_of(value, max_nat(normalized_of(value).scale as nat, 2))
}

pub open spec fn side_word(side: Side) -> Seq<char> {
    match side {
        Side::Buy => "buy"@,
        Side::Sell => "sell"@,
    }
}

/// `grid-<side>-<level>-<normalized price>`.
pub open spec fn client_id_spec(side: Side, level: nat, price: Dec) -> Seq<char> {
    "grid-"@ + side_word(side) + "-"@ + decimal_digits(level) + "-"@ + text_of(normalized_of(price))
}

pub open spec fn whole(n: nat) -> Dec {
    Dec { mantissa: n as i128, scale: 0 }
}

/// The distance between grid levels: the mark price times the spacing in basis points.
pub open spec fn spacing_spec(c: Config, mark: Dec) -> Dec {
    quotient_of(product_of(mark, c.spacing_bps), whole(10000))
}

pub struct StrategyState {
    pub projected: Dec,
    pub orders: Seq<DesiredOrderView>,
    pub issues: Seq<Seq<char>>,
}

pub open spec fn grid_order(c: Config, side: Side, level: nat, price: Dec, qty: Dec, reduce_only: bool) -> DesiredOrderView {
    DesiredOrderView {
        client_order_id: client_id_spec(side, level, price),
        symbol: c.symbol@,
        side,
        price,
        qty,
        reduce_only,
        post_only: true,
    }
}

/// The buy `i` levels below the mark: in short-only mode reduce-only and no
/// larger than the short left, never taking the position above zero; in any
/// mode skipped when it would take the absolute position beyond the cap.
pub open spec fn buy_step(c: Config, mark: Dec, spacing: Dec, st: StrategyState, i: nat) -> StrategyState {
    let price = strategy_price_spec(difference_of(mark, product_of(spacing, whole(i))));
    let reduce = c.grid_mode == GridMode::ShortOnly;
    let neg = Dec { mantissa: (-st.projected.mantissa) as i128, scale: st.projected.scale };
    let max_reducible = if neg@ <= 0 {
        Dec::zero_spec()
    } else {
        neg
    };
    if reduce && max_reducible@ <= 0 {
        st
    } else {
        let raw = if reduce && c.order_size@ > max_reducible@ {
            max_reducible
        } else {
            c.order_size
        };
        let qty = strategy_qty_spec(raw, c.order_size);
        if qty@ <= 0 {
            st
        } else {
            let next = sum_of(st.projected, qty);
            if reduce && next@ > 0 {
                StrategyState { issues: st.issues.push("short_only_long_flip_blocked"@), ..st }
            } else if abs_int(next@) > c.max_position_abs@ {
                StrategyState { issues: st.issues.push("max_position_breached"@), ..st }
            } else {
                StrategyState {
                    projected: next,
                    orders: st.orders.push(grid_order(c, Side::Buy, i, price, qty, reduce)),
                    issues: st.issues,
                }
            }
        }
    }
}

/// The sell `i` levels above the mark, skipped when it would take the
/// absolute position beyond the cap.
pub open spec fn sell_step(c: Config, mark: Dec, spacing: Dec, st: StrategyState, i: nat) -> StrategyState {
    let price = strategy_price_spec(sum_of(mark, product_of(spacing, whole(i))));
    let qty = strategy_qty_spec(c.order_size, c.order_size);
    if qty@ <= 0 {
        st
    } else {
        let next = difference_of(st.projected, qty);
        if abs_int(next@) > c.max_position_abs@ {
            StrategyState { issues: st.issues.push("max_position_breached"@), ..st }
        } else {
            StrategyState {
                projected: next,
                orders: st.orders.push(grid_order(c, Side::Sell, i, price, qty, false)),
                issues: st.issues,
            }
        }
    }
}

pub open spec fn buy_fold(c: Config, mark: Dec, spacing: Dec, init: StrategyState, n: nat) -> StrategyState
    decreases n,
{
    if n == 0 {
        init
    } else {
        buy_step(c, mark, spacing, buy_fold(c, mark, spacing, init, (n - 1) as nat), n)
    }
}

pub open spec fn sell_fold(c: Config, mark: Dec, spacing: Dec, init: StrategyState, n: nat) -> StrategyState
    decreases n,
{
    if n == 0 {
        init
    } else {
        sell_step(c, mark, spacing, sell_fold(c, mark, spacing, init, (n - 1) as nat), n)
    }
}

/// Buys: none in short-only mode without a short; else the active levels,
/// capped by the level count.
pub open spec fn buy_count_spec(c: Config, position: Position) -> nat {
    if c.grid_mode == GridMode::ShortOnly && !(position.size@ < 0) {
        0
    } else {
        min_nat(c.grid_active_levels as nat, c.levels as nat)
    }
}

/// Sells: the active levels, times the sell ratio in short-bias mode, capped
/// by the level count.
pub open spec fn sell_count_spec(c: Config) -> nat {
    if c.grid_mode == GridMode::ShortBias {
        min_nat((c.grid_active_levels * c.grid_short_bias_sell_ratio) as nat, c.levels as nat)
    } else {
        min_nat(c.grid_active_levels as nat, c.levels as nat)
    }
}

pub open spec fn price_keyed(s: Seq<DesiredOrderView>) -> Seq<(Dec, DesiredOrderView)> {
    s.map_values(|o: DesiredOrderView| (o.price, o))
}

pub open spec fn unkeyed<T>(s: Seq<(Dec, T)>) -> Seq<T> {
    s.map_values(|p: (Dec, T)| p.1)
}

pub struct StrategyOutput {
    pub orders: Seq<DesiredOrderView>,
    pub paused: bool,
    pub pause_reason: Option<Seq<char>>,
    pub issues: Seq<Seq<char>>,
}

/// What the bot wants on the book: nothing while the kill switch is on or
/// the mark is outside the configured band (with the reason); otherwise the
/// buys then the sells, stably sorted by price, and the issues met.
pub open spec fn build_orders_spec(c: Config, mark: Dec, position: Position) -> StrategyOutput {
    if c.kill_switch {
        StrategyOutput { orders: Seq::empty(), paused: true, pause_reason: Some("kill_switch"@), issues: Seq::empty() }
    } else if c.grid_min_price matches Some(m) && mark@ < m@ {
        StrategyOutput {
            orders: Seq::empty(),
            paused: true,
            pause_reason: Some("below_grid_min_price"@),
            issues: Seq::empty(),
        }
    } else if c.grid_max_price matches Some(m) && mark@ > m@ {
        StrategyOutput {
            orders: Seq::empty(),
            paused: true,
            pause_reason: Some("above_grid_max_price"@),
            issues: Seq::empty(),
        }
    } else {
        let spacing = spacing_spec(c, mark);
        let init = StrategyState { projected: position.size, orders: Seq::empty(), issues: Seq::empty() };
        let buys = buy_fold(c, mark, spacing, init, buy_count_spec(c, position));
        let all = sell_fold(c, mark, spacing, buys, sell_count_spec(c));
        StrategyOutput {
            orders: unkeyed(insertion_sorted(price_keyed(all.orders))),
            paused: false,
            pause_reason: None,
            issues: all.issues,
        }
    }
}

/// In short-only mode every buy is reduce-only.
pub open spec fn buys_reduce_only(c: Config, s: Seq<DesiredOrderView>) -> bool {
    forall|k: int|
        0 <= k < s.len() && c.grid_mode == GridMode::ShortOnly && (#[trigger] s[k]).side == Side::Buy
            ==> s[k].reduce_only
}

pub open spec fn all_sells(s: Seq<DesiredOrderView>) -> bool {
    forall|k: int| 0 <= k < s.len() ==> (#[trigger] s[k]).side == Side::Sell
}

proof fn lemma_buy_fold_tags(c: Config, mark: Dec, spacing: Dec, init: StrategyState, n: nat)
    requires
        buys_reduce_only(c, init.orders),
    ensures
        buys_reduce_only(c, buy_fold(c, mark, spacing, init, n).orders),
        c.grid_mode == GridMode::ShortOnly && init.projected@ <= 0 ==> buy_fold(c, mark, spacing, init, n).projected@
            <= 0,
    decreases n,
{
    if n > 0 {
        lemma_buy_fold_tags(c, mark, spacing, init, (n - 1) as nat);
        let st = buy_fold(c, mark, spacing, init, (n - 1) as nat);
        let next = buy_fold(c, mark, spacing, init, n);
        assert forall|k: int|
            0 <= k < next.orders.len() && c.grid_mode == GridMode::ShortOnly && (#[trigger] next.orders[k]).side
                == Side::Buy implies next.orders[k].reduce_only by {
            if k < st.orders.len() {
                assert(next.orders[k] == st.orders[k]);
            }
        }
    }
}

proof fn lemma_sell_fold_tags(c: Config, mark: Dec, spacing: Dec, init: StrategyState, n: nat)
    requires
        buys_reduce_only(c, init.orders),
    ensures
        buys_reduce_only(c, sell_fold(c, mark, spacing, init, n).orders),
        all_sells(init.orders) ==> all_sells(sell_fold(c, mark, spacing, init, n).orders),
        abs_int(init.projected@) <= c.max_position_abs@ ==> abs_int(sell_fold(c, mark, spacing, init, n).projected@)
            <= c.max_position_abs@,
    decreases n,
{
    if n > 0 {
        lemma_sell_fold_tags(c, mark, spacing, init, (n - 1) as nat);
        let st = sell_fold(c, mark, spacing, init, (n - 1) as nat);
        let next = sell_fold(c, mark, spacing, init, n);
        assert forall|k: int|
            0 <= k < next.orders.len() && c.grid_mode == GridMode::ShortOnly && (#[trigger] next.orders[k]).side
                == Side::Buy implies next.orders[k].reduce_only by {
            if k < st.orders.len() {
                assert(next.orders[k] == st.orders[k]);
            }
        }
        if all_sells(init.orders) {
            assert forall|k: int| 0 <= k < next.orders.len() implies (#[trigger] next.orders[k]).side == Side::Sell by {
                if k < st.orders.len() {
                    assert(next.orders[k] == st.orders[k]);
                }
            }
        }
    }
}

/// Sorting by price keeps the orders: as many come out, each one of those that went in.
proof fn lemma_sorted_keeps(orders: Seq<DesiredOrderView>)
    ensures
        unkeyed(insertion_sorted(price_keyed(orders))).len() == orders.len(),
        forall|k: int|
            0 <= k < orders.len() ==> exists|t: int|
                0 <= t < orders.len() && #[trigger] unkeyed(insertion_sorted(price_keyed(orders)))[k] == orders[t],
{
    lemma_insertion_sorted_items(price_keyed(orders));
    let sorted = insertion_sorted(price_keyed(orders));
    assert forall|k: int| 0 <= k < orders.len() implies exists|t: int|
        0 <= t < orders.len() && #[trigger] unkeyed(sorted)[k] == orders[t] by {
        let t = choose|t: int| 0 <= t < price_keyed(orders).len() && sorted[k] == price_keyed(orders)[t];
        assert(unkeyed(sorted)[k] == sorted[k].1);
    }
}

/// In short-only mode every buy the bot wants is reduce-only, and without a
/// short it wants no buy at all.
pub proof fn lemma_short_only_buys(c: Config, mark: Dec, position: Position)
    requires
        c.grid_mode == GridMode::ShortOnly,
    ensures
        buys_reduce_only(c, build_orders_spec(c, mark, position).orders),
        !(position.size@ < 0) ==> all_sells(build_orders_spec(c, mark, position).orders),
{
    if !c.kill_switch && !(c.grid_min_price matches Some(m) && mark@ < m@) && !(c.grid_max_price matches Some(m)
        && mark@ > m@) {
        let spacing = spacing_spec(c, mark);
        let init = StrategyState { projected: position.size, orders: Seq::empty(), issues: Seq::empty() };
        lemma_buy_fold_tags(c, mark, spacing, init, buy_count_spec(c, position));
        let buys = buy_fold(c, mark, spacing, init, buy_count_spec(c, position));
        lemma_sell_fold_tags(c, mark, spacing, buys, sell_count_spec(c));
        let all = sell_fold(c, mark, spacing, buys, sell_count_spec(c));
        lemma_sorted_keeps(all.orders);
        let out = unkeyed(insertion_sorted(price_keyed(all.orders)));
        assert forall|k: int|
            0 <= k < out.len() && c.grid_mode == GridMode::ShortOnly && (#[trigger] out[k]).side == Side::Buy
                implies out[k].reduce_only by {
            let t = choose|t: int| 0 <= t < all.orders.len() && out[k] == all.orders[t];
        }
        if !(position.size@ < 0) {
            assert(buys == init);
            assert forall|k: int| 0 <= k < out.len() implies (#[trigger] out[k]).side == Side::Sell by {
                let t = choose|t: int| 0 <= t < all.orders.len() && out[k] == all.orders[t];
            }
        }
    }
}

/// Each order is reduce-only exactly when it is a buy in short-only mode.
pub open spec fn reduce_only_tags(c: Config, s: Seq<DesiredOrderView>) -> bool {
    forall|k: int|
        0 <= k < s.len() ==> (#[trigger] s[k]).reduce_only == (c.grid_mode == GridMode::ShortOnly && s[k].side
            == Side::Buy)
}

proof fn lemma_fold_reduce_only_tags(c: Config, mark: Dec, spacing: Dec, init: StrategyState, n: nat)
    requires
        reduce_only_tags(c, init.orders),
    ensures
        reduce_only_tags(c, buy_fold(c, mark, spacing, init, n).orders),
        reduce_only_tags(c, sell_fold(c, mark, spacing, init, n).orders),
    decreases n,
{
    if n > 0 {
        lemma_fold_reduce_only_tags(c, mark, spacing, init, (n - 1) as nat);
        let b = buy_fold(c, mark, spacing, init, (n - 1) as nat);
        let b2 = buy_fold(c, mark, spacing, init, n);
        assert forall|k: int| 0 <= k < b2.orders.len() implies (#[trigger] b2.orders[k]).reduce_only == (c.grid_mode
            == GridMode::ShortOnly && b2.orders[k].side == Side::Buy) by {
            if k < b.orders.len() {
                assert(b2.orders[k] == b.orders[k]);
            }
        }
        let s0 = sell_fold(c, mark, spacing, init, (n - 1) as nat);
        let s2 = sell_fold(c, mark, spacing, init, n);
        assert forall|k: int| 0 <= k < s2.orders.len() implies (#[trigger] s2.orders[k]).reduce_only == (c.grid_mode
            == GridMode::ShortOnly && s2.orders[k].side == Side::Buy) by {
            if k < s0.orders.len() {
                assert(s2.orders[k] == s0.orders[k]);
            }
        }
    }
}

/// A grid order is reduce-only exactly when it is a buy and the grid is in
/// short-only mode: sells never are, and neither are the buys of a neutral
/// or short-bias grid, which may open a long.
pub proof fn lemma_reduce_only_exactly_short_only_buys(c: Config, mark: Dec, position: Position)
    ensures
        reduce_only_tags(c, build_orders_spec(c, mark, position).orders),
{
    if !c.kill_switch && !(c.grid_min_price matches Some(m) && mark@ < m@) && !(c.grid_max_price matches Some(m)
        && mark@ > m@) {
        let spacing = spacing_spec(c, mark);
        let init = StrategyState { projected: position.size, orders: Seq::empty(), issues: Seq::empty() };
        lemma_fold_reduce_only_tags(c, mark, spacing, init, buy_count_spec(c, position));
        let buys = buy_fold(c, mark, spacing, init, buy_count_spec(c, position));
        lemma_fold_reduce_only_tags(c, mark, spacing, buys, sell_count_spec(c));
        let all = sell_fold(c, mark, spacing, buys, sell_count_spec(c));
        lemma_sorted_keeps(all.orders);
        let out = unkeyed(insertion_sorted(price_keyed(all.orders)));
        assert forall|k: int| 0 <= k < out.len() implies (#[trigger] out[k]).reduce_only == (c.grid_mode
            == GridMode::ShortOnly && out[k].side == Side::Buy) by {
            let t = choose|t: int| 0 <= t < all.orders.len() && out[k] == all.orders[t];
        }
    }
}

/// Buys never take a position within the cap beyond it.
proof fn lemma_buy_fold_cap(c: Config, mark: Dec, spacing: Dec, init: StrategyState, n: nat)
    requires
        abs_int(init.projected@) <= c.max_position_abs@,
    ensures
        abs_int(buy_fold(c, mark, spacing, init, n).projected@) <= c.max_position_abs@,
    decreases n,
{
    if n > 0 {
        lemma_buy_fold_cap(c, mark, spacing, init, (n - 1) as nat);
    }
}

/// In short-only mode the buys never take a short or flat position above
/// zero; in every mode, from a position within the cap, the position the
/// bot projects after its buys and after all its orders stays within the
/// cap (each order that would breach it is skipped).
pub proof fn lemma_grid_limits(c: Config, mark: Dec, position: Position)
    ensures
        ({
            let spacing = spacing_spec(c, mark);
            let init = StrategyState { projected: position.size, orders: Seq::empty(), issues: Seq::empty() };
            let buys = buy_fold(c, mark, spacing, init, buy_count_spec(c, position));
            &&& (c.grid_mode == GridMode::ShortOnly && position.size@ <= 0 ==> buys.projected@ <= 0)
            &&& (abs_int(position.size@) <= c.max_position_abs@ ==> abs_int(buys.projected@) <= c.max_position_abs@)
            &&& (abs_int(buys.projected@) <= c.max_position_abs@ ==> abs_int(
                sell_fold(c, mark, spacing, buys, sell_count_spec(c)).projected@,
            ) <= c.max_position_abs@)
        }),
{
    let spacing = spacing_spec(c, mark);
    let init = StrategyState { projected: position.size, orders: Seq::empty(), issues: Seq::empty() };
    lemma_buy_fold_tags(c, mark, spacing, init, buy_count_spec(c, position));
    if abs_int(position.size@) <= c.max_position_abs@ {
        lemma_buy_fold_cap(c, mark, spacing, init, buy_count_spec(c, position));
    }
    let buys = buy_fold(c, mark, spacing, init, buy_count_spec(c, position));
    lemma_sell_fold_tags(c, mark, spacing, buys, sell_count_spec(c));
}

/// Whether the bot pauses rather than builds a grid: the kill switch, or a
/// mark outside the configured band.
pub open spec fn strategy_pauses(c: Config, mark: Dec) -> bool {
    ||| c.kill_switch
    ||| (c.grid_min_price matches Some(m) && mark@ < m@)
    ||| (c.grid_max_price matches Some(m) && mark@ > m@)
}

/// What deciding on a pause compares is representable: nothing under the
/// kill switch, otherwise the mark and the band's prices.
pub open spec fn pause_inputs_ok(c: Config, mark: Dec) -> bool {
    c.kill_switch || (mark.wf() && (c.grid_min_price matches Some(m) ==> m.wf()) && (c.grid_max_price matches Some(
        m,
    ) ==> m.wf()))
}

/// Whether the bot pauses at this mark rather than builds a grid.
pub fn pause_applies(config: &Config, mark_price: &Dec) -> (r: bool)
    requires
        pause_inputs_ok(*config, *mark_price),
    ensures
        r == strategy_pauses(*config, *mark_price),
{
    if config.kill_switch {
        return true;
    }
    let below = match config.grid_min_price {
        Some(min) => mark_price.less_than(&min),
        None => false,
    };
    let above = match config.grid_max_price {
        Some(max) => max.less_than(mark_price),
        None => false,
    };
    below || above
}

/// The arithmetic of the level `i` steps from the mark stays representable:
/// the offset `spacing * i`, and the mark moved by it.
pub open spec fn level_fits(mark: Dec, spacing: Dec, i: nat, above: bool) -> bool {
    let step = product_of(spacing, whole(i));
    &&& abs_int(spacing@ * whole(i)@) <= safe_limit() * unit()
    &&& if above {
        abs_int(mark@ + step@) <= safe_limit()
    } else {
        abs_int(mark@ - step@) <= safe_limit()
    }
}

/// The arithmetic of the buy `i` levels below the mark stays representable:
/// its price, and the position it would project.
pub open spec fn buy_step_fits(c: Config, mark: Dec, spacing: Dec, st: StrategyState, i: nat) -> bool {
    let reduce = c.grid_mode == GridMode::ShortOnly;
    let neg = Dec { mantissa: (-st.projected.mantissa) as i128, scale: st.projected.scale };
    let max_reducible = if neg@ <= 0 {
        Dec::zero_spec()
    } else {
        neg
    };
    let raw = if reduce && c.order_size@ > max_reducible@ {
        max_reducible
    } else {
        c.order_size
    };
    let qty = strategy_qty_spec(raw, c.order_size);
    &&& level_fits(mark, spacing, i, false)
    &&& (!(reduce && max_reducible@ <= 0) && qty@ > 0 ==> abs_int(st.projected@ + qty@) <= safe_limit())
}

/// The arithmetic of the sell `i` levels above the mark stays representable:
/// its price, and the position it would project.
pub open spec fn sell_step_fits(c: Config, mark: Dec, spacing: Dec, st: StrategyState, i: nat) -> bool {
    let qty = strategy_qty_spec(c.order_size, c.order_size);
    &&& level_fits(mark, spacing, i, true)
    &&& (qty@ > 0 ==> abs_int(st.projected@ - qty@) <= safe_limit())
}

/// Everything building the grid computes stays representable, step by step:
/// the spacing, then each buy and each sell with the position projected
/// before it.
pub open spec fn strategy_fits(c: Config, mark: Dec, position: Position) -> bool {
    let spacing = spacing_spec(c, mark);
    let init = StrategyState { projected: position.size, orders: Seq::empty(), issues: Seq::empty() };
    let buys = buy_fold(c, mark, spacing, init, buy_count_spec(c, position));
    &&& mark.wf()
    &&& c.spacing_bps.wf()
    &&& c.order_size.wf()
    &&& c.max_position_abs.wf()
    &&& position.size.wf()
    &&& abs_int(mark@ * c.spacing_bps@) <= safe_limit() * unit()
    &&& (c.grid_mode == GridMode::ShortBias ==> c.grid_active_levels * c.grid_short_bias_sell_ratio <= usize::MAX)
    &&& buys_fit(c, mark, spacing, init, buy_count_spec(c, position))
    &&& sells_fit(c, mark, spacing, buys, sell_count_spec(c))
}

/// Each of the first `n` buys fits, from the position projected before it.
pub open spec fn buys_fit(c: Config, mark: Dec, spacing: Dec, init: StrategyState, n: nat) -> bool {
    forall|i: nat| 1 <= i <= n ==> #[trigger] buy_step_fits(c, mark, spacing, buy_fold(c, mark, spacing, init, (i - 1) as nat), i)
}

/// Each of the first `n` sells fits, from the position projected before it.
pub open spec fn sells_fit(c: Config, mark: Dec, spacing: Dec, init: StrategyState, n: nat) -> bool {
    forall|k: nat| 1 <= k <= n ==> #[trigger] sell_step_fits(c, mark, spacing, sell_fold(c, mark, spacing, init, (k - 1) as nat), k)
}

/// Inputs whose arithmetic stays representable.
pub open spec fn strategy_inputs_ok(c: Config, mark: Dec, position: Position) -> bool {
    &&& within(mark, input_bound())
    &&& within(c.spacing_bps, input_bound())
    &&& within(c.order_size, input_bound())
    &&& within(c.max_position_abs, input_bound())
    &&& (c.grid_min_price matches Some(m) ==> m.wf())
    &&& (c.grid_max_price matches Some(m) ==> m.wf())
    &&& within(position.size, input_bound())
    &&& c.levels <= 1000000
    &&& (c.grid_mode == GridMode::ShortBias ==> c.grid_active_levels * c.grid_short_bias_sell_ratio <= usize::MAX)
}

pub open spec fn prices_wf(s: Seq<DesiredOrder>) -> bool {
    forall|k: int| 0 <= k < s.len() ==> (#[trigger] s[k]).price.wf()
}

pub open spec fn texts(s: Seq<String>) -> Seq<Seq<char>> {
    s.map_values(|t: String| t@)
}

/// Whether the inputs of `build_orders` keep its arithmetic representable.
pub fn strategy_inputs_in_range(config: &Config, mark_price: &Dec, position: &Position) -> (r: bool)
    ensures
        r == strategy_inputs_ok(*config, *mark_price, *position),
{
    let bound: u64 = 1000000000000;
    let band_ok = match config.grid_min_price {
        Some(m) => m.is_wf(),
        None => true,
    } && match config.grid_max_price {
        Some(m) => m.is_wf(),
        None => true,
    };
    let ratio_ok = if config.grid_mode == GridMode::ShortBias {
        config.grid_short_bias_sell_ratio == 0 || config.grid_active_levels <= usize::MAX / config.grid_short_bias_sell_ratio
    } else {
        true
    };
    proof {
        if config.grid_mode == GridMode::ShortBias && config.grid_short_bias_sell_ratio != 0 {
            let a = config.grid_active_levels as int;
            let b = config.grid_short_bias_sell_ratio as int;
            let m = usize::MAX as int;
            assert((a <= m / b) == (a * b <= m)) by (nonlinear_arith)
                requires
                    b > 0,
                    a >= 0,
                    m >= 0,
            ;
        }
    }
    mark_price.is_within(bound) && config.spacing_bps.is_within(bound) && config.order_size.is_within(bound)
        && config.max_position_abs.is_within(bound) && band_ok && position.size.is_within(bound) && config.levels
        <= 1000000 && ratio_ok
}

/// `value` at the precision of `step`; zero when either is not positive.
pub fn normalize_qty(value: Dec, step: Dec) -> (r: Dec)
    requires
        value.wf(),
        step.wf(),
    ensures
        r == strategy_qty_spec(value, step),
{
    if step.at_most(&Dec::zero()) || value.at_most(&Dec::zero()) {
        return Dec::zero();
    }
    proof {
        lemma_normalized_of(step);
    }
    let scale = dec_normalize(step).scale;
    dec_round_dp(value, scale)
}

/// `value` rounded to its own precision, but to no fewer than two places.
pub fn normalize_price(value: Dec) -> (r: Dec)
    requires
        value.wf(),
    ensures
        r == strategy_price_spec(value),
{
    proof {
        lemma_normalized_of(value);
    }
    let own = dec_normalize(value).scale;
    let scale = if own < 2 {
        2
    } else {
        own
    };
    dec_round_dp(value, scale)
}

/// `grid-<side>-<level>-<normalized price>`.
pub fn client_id(side: Side, level: usize, price: Dec) -> (r: String)
    requires
        price.wf(),
    ensures
        r@ == client_id_spec(side, level as nat, price),
{
    proof {
        reveal_strlit("buy");
        reveal_strlit("sell");
        lemma_normalized_of(price);
    }
    let mut id = String::from_str("grid-");
    id.append(
        match side {
            Side::Buy => "buy",
            Side::Sell => "sell",
        },
    );
    id.append("-");
    id.append(usize_text(level).as_str());
    id.append("-");
    id.append(dec_to_string(dec_normalize(price)).as_str());
    id
}

/// Magnitude bounds of the grid arithmetic, in the integer view.
#[verifier::inline]
pub open spec fn spacing_bound() -> int {
    300000000000000000000 * unit()
}

#[verifier::inline]
pub open spec fn price_bound() -> int {
    600000000000000000000000000 * unit()
}

fn grid_spacing(c: &Config, mark: Dec, Ghost(bounded): Ghost<bool>) -> (r: Dec)
    requires
        mark.wf(),
        c.spacing_bps.wf(),
        bounded ==> within(mark, input_bound()) && within(c.spacing_bps, input_bound()),
        !bounded ==> abs_int(mark@ * c.spacing_bps@) <= safe_limit() * unit(),
    ensures
        r == spacing_spec(*c, mark),
        r.wf(),
        bounded ==> within(r, spacing_bound()),
{
    let scaled = mul_either(
        mark,
        c.spacing_bps,
        Ghost(bounded),
        Ghost(input_bound()),
        Ghost(input_bound()),
        Ghost(2000000000000000000000000 * unit()),
    );
    let bps = Dec::from_u64(10000);
    proof {
        lemma_value_bound(scaled);
    }
    div_within(
        scaled,
        bps,
        Ghost(
            if bounded {
                2000000000000000000000000 * unit()
            } else {
                max_mantissa() * unit()
            },
        ),
        Ghost(10000 * unit()),
        Ghost(
            if bounded {
                spacing_bound()
            } else {
                max_mantissa() * unit()
            },
        ),
    )
}

fn level_price(mark: Dec, spacing: Dec, i: usize, above: bool, Ghost(bounded): Ghost<bool>) -> (r: Dec)
    requires
        mark.wf(),
        spacing.wf(),
        bounded ==> within(mark, input_bound()) && within(spacing, spacing_bound()) && 1 <= i <= 1000000,
        !bounded ==> level_fits(mark, spacing, i as nat, above),
    ensures
        r == strategy_price_spec(
            if above {
                sum_of(mark, product_of(spacing, whole(i as nat)))
            } else {
                difference_of(mark, product_of(spacing, whole(i as nat)))
            },
        ),
        r.wf(),
        bounded ==> within(r, price_bound()),
{
    let n = Dec::from_u64(i as u64);
    let step = mul_either(
        spacing,
        n,
        Ghost(bounded),
        Ghost(spacing_bound()),
        Ghost(1000000 * unit()),
        Ghost(400000000000000000000000000 * unit()),
    );
    let raw = if above {
        add_either(mark, step, Ghost(bounded), Ghost(input_bound()), Ghost(400000000000000000000000000 * unit()))
    } else {
        sub_either(mark, step, Ghost(bounded), Ghost(input_bound()), Ghost(400000000000000000000000000 * unit()))
    };
    proof {
        lemma_normalized_of(raw);
        let dp = max_nat(normalized_of(raw).scale as nat, 2);
        lemma_round_dp_bound(raw, dp);
        lemma_round_dp_of(raw, dp);
    }
    normalize_price(raw)
}

/// The buy `i` levels below the mark, folded into the state.
fn buy_level(
    c: &Config,
    mark: Dec,
    spacing: Dec,
    i: usize,
    projected: Dec,
    orders: &mut Vec<DesiredOrder>,
    issues: &mut Vec<String>,
    Ghost(bounded): Ghost<bool>,
    Ghost(bound): Ghost<int>,
) -> (r: Dec)
    requires
        mark.wf(),
        spacing.wf(),
        c.order_size.wf(),
        c.max_position_abs.wf(),
        projected.wf(),
        bounded ==> within(mark, input_bound()) && within(spacing, spacing_bound()) && within(
            c.order_size,
            input_bound(),
        ) && within(c.max_position_abs, input_bound()) && 1 <= i <= 1000000 && within(projected, bound)
            && input_bound() <= bound <= 3000000 * input_bound(),
        !bounded ==> buy_step_fits(
            *c,
            mark,
            spacing,
            StrategyState { projected, orders: desired_views(old(orders)@), issues: texts(old(issues)@) },
            i as nat,
        ),
        prices_wf(old(orders)@),
    ensures
        prices_wf(final(orders)@),
        buy_step(
            *c,
            mark,
            spacing,
            StrategyState { projected, orders: desired_views(old(orders)@), issues: texts(old(issues)@) },
            i as nat,
        ) == (StrategyState { projected: r, orders: desired_views(final(orders)@), issues: texts(final(issues)@) }),
        r.wf(),
        bounded ==> within(r, bound + 2 * input_bound()),
{
    let ghost before = StrategyState { projected, orders: desired_views(orders@), issues: texts(issues@) };
    let price = level_price(mark, spacing, i, false, Ghost(bounded));
    let reduce = c.grid_mode == GridMode::ShortOnly;
    let neg = projected.neg();
    let max_reducible = if neg.at_most(&Dec::zero()) {
        Dec::zero()
    } else {
        neg
    };
    if reduce && max_reducible.at_most(&Dec::zero()) {
        return projected;
    }
    let raw = if reduce && max_reducible.less_than(&c.order_size) {
        max_reducible
    } else {
        c.order_size
    };
    let qty = normalize_qty(raw, c.order_size);
    proof {
        lemma_normalized_of(c.order_size);
        lemma_round_dp_bound(raw, normalized_of(c.order_size).scale as nat);
        lemma_round_dp_of(raw, normalized_of(c.order_size).scale as nat);
    }
    if qty.at_most(&Dec::zero()) {
        return projected;
    }
    let next = add_either(projected, qty, Ghost(bounded), Ghost(bound), Ghost(input_bound() + unit()));
    if reduce && Dec::zero().less_than(&next) {
        proof {
            reveal_strlit("short_only_long_flip_blocked");
        }
        let ghost old_issues = issues@;
        issues.push(String::from_str("short_only_long_flip_blocked"));
        assert(texts(issues@) =~= texts(old_issues).push("short_only_long_flip_blocked"@));
        return projected;
    }
    if c.max_position_abs.less_than(&next.abs()) {
        proof {
            reveal_strlit("max_position_breached");
        }
        let ghost old_issues = issues@;
        issues.push(String::from_str("max_position_breached"));
        assert(texts(issues@) =~= texts(old_issues).push("max_position_breached"@));
        return projected;
    }
    let order = DesiredOrder {
        client_order_id: client_id(Side::Buy, i, price),
        symbol: c.symbol.clone(),
        side: Side::Buy,
        price,
        qty,
        reduce_only: reduce,
        post_only: true,
    };
    let ghost old_orders = orders@;
    orders.push(order);
    assert(desired_views(orders@) =~= desired_views(old_orders).push(
        grid_order(*c, Side::Buy, i as nat, price, qty, reduce),
    ));
    next
}

/// The sell `i` levels above the mark, folded into the state.
fn sell_level(
    c: &Config,
    mark: Dec,
    spacing: Dec,
    i: usize,
    projected: Dec,
    orders: &mut Vec<DesiredOrder>,
    issues: &mut Vec<String>,
    Ghost(bounded): Ghost<bool>,
    Ghost(bound): Ghost<int>,
) -> (r: Dec)
    requires
        mark.wf(),
        spacing.wf(),
        c.order_size.wf(),
        c.max_position_abs.wf(),
        projected.wf(),
        bounded ==> within(mark, input_bound()) && within(spacing, spacing_bound()) && within(
            c.order_size,
            input_bound(),
        ) && within(c.max_position_abs, input_bound()) && 1 <= i <= 1000000 && within(projected, bound)
            && input_bound() <= bound <= 3000000 * input_bound(),
        !bounded ==> sell_step_fits(
            *c,
            mark,
            spacing,
            StrategyState { projected, orders: desired_views(old(orders)@), issues: texts(old(issues)@) },
            i as nat,
        ),
        prices_wf(old(orders)@),
    ensures
        prices_wf(final(orders)@),
        sell_step(
            *c,
            mark,
            spacing,
            StrategyState { projected, orders: desired_views(old(orders)@), issues: texts(old(issues)@) },
            i as nat,
        ) == (StrategyState { projected: r, orders: desired_views(final(orders)@), issues: texts(final(issues)@) }),
        r.wf(),
        bounded ==> within(r, bound),
{
    let price = level_price(mark, spacing, i, true, Ghost(bounded));
    let qty = normalize_qty(c.order_size, c.order_size);
    proof {
        lemma_normalized_of(c.order_size);
        lemma_round_dp_bound(c.order_size, normalized_of(c.order_size).scale as nat);
        lemma_round_dp_of(c.order_size, normalized_of(c.order_size).scale as nat);
    }
    if qty.at_most(&Dec::zero()) {
        return projected;
    }
    let next = sub_either(projected, qty, Ghost(bounded), Ghost(bound), Ghost(input_bound() + unit()));
    if c.max_position_abs.less_than(&next.abs()) {
        proof {
            reveal_strlit("max_position_breached");
        }
        let ghost old_issues = issues@;
        issues.push(String::from_str("max_position_breached"));
        assert(texts(issues@) =~= texts(old_issues).push("max_position_breached"@));
        return projected;
    }
    let order = DesiredOrder {
        client_order_id: client_id(Side::Sell, i, price),
        symbol: c.symbol.clone(),
        side: Side::Sell,
        price,
        qty,
        reduce_only: false,
        post_only: true,
    };
    let ghost old_orders = orders@;
    orders.push(order);
    assert(desired_views(orders@) =~= desired_views(old_orders).push(
        grid_order(*c, Side::Sell, i as nat, price, qty, false),
    ));
    next
}

/// The orders stably sorted by price.
fn sort_by_price(orders: Vec<DesiredOrder>) -> (r: Vec<DesiredOrder>)
    requires
        prices_wf(orders@),
    ensures
        desired_views(r@) == unkeyed(insertion_sorted(price_keyed(desired_views(orders@)))),
{
    let mut keyed: Vec<(Dec, DesiredOrder)> = Vec::new();
    let mut j: usize = 0;
    while j < orders.len()
        invariant
            j <= orders@.len(),
            prices_wf(orders@),
            keyed@ == orders@.take(j as int).map_values(|o: DesiredOrder| (o.price, o)),
        decreases orders@.len() - j,
    {
        let o = orders[j].clone();
        keyed.push((o.price, o));
        assert(orders@.take(j + 1).map_values(|o: DesiredOrder| (o.price, o)) =~= orders@.take(j as int).map_values(
            |o: DesiredOrder| (o.price, o),
        ).push((orders@[j as int].price, orders@[j as int])));
        j = j + 1;
    }
    assert(orders@.take(orders@.len() as int) =~= orders@);
    proof {
        assert forall|t: int| 0 <= t < keyed@.len() implies (#[trigger] keyed@[t]).0.wf() by {
            assert(keyed@[t].0 == orders@[t].price);
        }
    }
    let ghost keyed_items = keyed@;
    let sorted = stable_sort_by_key(keyed);
    let mut result: Vec<DesiredOrder> = Vec::new();
    let mut t: usize = 0;
    while t < sorted.len()
        invariant
            t <= sorted@.len(),
            result@.len() == t,
            forall|m: int| 0 <= m < t ==> result@[m] == (#[trigger] sorted@[m]).1,
        decreases sorted@.len() - t,
    {
        let o = sorted[t].1.clone();
        result.push(o);
        t = t + 1;
    }
    proof {
        let f = |o: DesiredOrder| o@;
        lemma_insertion_sorted_map(keyed_items, f);
        assert(keyed_map(keyed_items, f) =~= price_keyed(desired_views(orders@)));
        assert(desired_views(result@) =~= unkeyed(keyed_map(sorted@, f)));
    }
    result
}

/// What the bot wants on the book for the mark price and position, whether
/// it is paused (and why), and the issues met on the way.
pub fn build_orders(config: &Config, mark_price: Dec, position: &Position) -> (r: (
    Vec<DesiredOrder>,
    bool,
    Option<String>,
    Vec<String>,
))
    requires
        pause_inputs_ok(*config, mark_price),
        strategy_pauses(*config, mark_price) || strategy_inputs_ok(*config, mark_price, *position) || strategy_fits(
            *config,
            mark_price,
            *position,
        ),
    ensures
        desired_views(r.0@) == build_orders_spec(*config, mark_price, *position).orders,
        r.1 == build_orders_spec(*config, mark_price, *position).paused,
        match r.2 {
            Some(t) => build_orders_spec(*config, mark_price, *position).pause_reason == Some(t@),
            None => build_orders_spec(*config, mark_price, *position).pause_reason is None,
        },
        texts(r.3@) == build_orders_spec(*config, mark_price, *position).issues,
{
    let mut issues: Vec<String> = Vec::new();
    if config.kill_switch {
        let none: Vec<DesiredOrder> = Vec::new();
        assert(texts(issues@) =~= Seq::<Seq<char>>::empty());
        assert(desired_views(none@) =~= Seq::<DesiredOrderView>::empty());
        return (none, true, Some(String::from_str("kill_switch")), issues);
    }
    let below = match config.grid_min_price {
        Some(min) => mark_price.less_than(&min),
        None => false,
    };
    if below {
        let none: Vec<DesiredOrder> = Vec::new();
        assert(texts(issues@) =~= Seq::<Seq<char>>::empty());
        assert(desired_views(none@) =~= Seq::<DesiredOrderView>::empty());
        return (none, true, Some(String::from_str("below_grid_min_price")), issues);
    }
    let above = match config.grid_max_price {
        Some(max) => max.less_than(&mark_price),
        None => false,
    };
    if above {
        let none: Vec<DesiredOrder> = Vec::new();
        assert(texts(issues@) =~= Seq::<Seq<char>>::empty());
        assert(desired_views(none@) =~= Seq::<DesiredOrderView>::empty());
        return (none, true, Some(String::from_str("above_grid_max_price")), issues);
    }
    let ghost bounded = strategy_inputs_ok(*config, mark_price, *position);
    let mut orders: Vec<DesiredOrder> = Vec::new();
    let mut projected = position.size;
    let spacing = grid_spacing(config, mark_price, Ghost(bounded));
    let capped = if config.grid_active_levels <= config.levels {
        config.grid_active_levels
    } else {
        config.levels
    };
    let buy_count: usize = if config.grid_mode == GridMode::ShortOnly && !position.size.less_than(&Dec::zero()) {
        0
    } else {
        capped
    };
    let sell_count: usize = if config.grid_mode == GridMode::ShortBias {
        let wanted = config.grid_active_levels * config.grid_short_bias_sell_ratio;
        if wanted <= config.levels {
            wanted
        } else {
            config.levels
        }
    } else {
        capped
    };
    let ghost c = *config;
    let ghost init = StrategyState { projected: position.size, orders: Seq::empty(), issues: Seq::empty() };
    assert(desired_views(orders@) =~= Seq::<DesiredOrderView>::empty());
    assert(texts(issues@) =~= Seq::<Seq<char>>::empty());
    assert(buy_count == buy_count_spec(c, *position));
    assert(sell_count == sell_count_spec(c));
    let mut i: usize = 0;
    while i < buy_count
        invariant
            bounded == strategy_inputs_ok(c, mark_price, *position),
            !bounded ==> buys_fit(c, mark_price, spacing, init, buy_count as nat),
            *config == c,
            mark_price.wf(),
            c.order_size.wf(),
            c.max_position_abs.wf(),
            spacing.wf(),
            projected.wf(),
            bounded ==> within(spacing, spacing_bound()),
            spacing == spacing_spec(c, mark_price),
            buy_count == buy_count_spec(c, *position),
            bounded ==> buy_count <= 1000000,
            0 <= i <= buy_count,
            bounded ==> within(projected, input_bound() + 2 * i * input_bound()),
            prices_wf(orders@),
            buy_fold(c, mark_price, spacing, init, i as nat) == (StrategyState {
                projected,
                orders: desired_views(orders@),
                issues: texts(issues@),
            }),
        decreases buy_count - i,
    {
        let level = i + 1;
        proof {
            if !bounded {
                assert(buy_step_fits(c, mark_price, spacing, buy_fold(c, mark_price, spacing, init, (level - 1) as nat), level as nat));
            }
        }
        projected = buy_level(
            config,
            mark_price,
            spacing,
            level,
            projected,
            &mut orders,
            &mut issues,
            Ghost(bounded),
            Ghost(input_bound() + 2 * i * input_bound()),
        );
        i = level;
    }
    let ghost buys = buy_fold(c, mark_price, spacing, init, buy_count as nat);
    let ghost bound = input_bound() + 2 * buy_count * input_bound();
    proof {
        if !bounded {
            assert(strategy_fits(c, mark_price, *position));
            assert(sells_fit(c, mark_price, spacing, buys, sell_count as nat));
        }
    }
    let mut k: usize = 0;
    while k < sell_count
        invariant
            bounded == strategy_inputs_ok(c, mark_price, *position),
            !bounded ==> sells_fit(c, mark_price, spacing, buys, sell_count as nat),
            *config == c,
            mark_price.wf(),
            c.order_size.wf(),
            c.max_position_abs.wf(),
            spacing.wf(),
            projected.wf(),
            bounded ==> within(spacing, spacing_bound()),
            spacing == spacing_spec(c, mark_price),
            sell_count == sell_count_spec(c),
            bounded ==> sell_count <= 1000000,
            0 <= k <= sell_count,
            bound == input_bound() + 2 * buy_count * input_bound(),
            bounded ==> buy_count <= 1000000,
            bounded ==> within(projected, bound),
            prices_wf(orders@),
            sell_fold(c, mark_price, spacing, buys, k as nat) == (StrategyState {
                projected,
                orders: desired_views(orders@),
                issues: texts(issues@),
            }),
        decreases sell_count - k,
    {
        let level = k + 1;
        proof {
            if !bounded {
                assert(sell_step_fits(c, mark_price, spacing, sell_fold(c, mark_price, spacing, buys, (level - 1) as nat), level as nat));
            }
        }
        projected = sell_level(
            config,
            mark_price,
            spacing,
            level,
            projected,
            &mut orders,
            &mut issues,
            Ghost(bounded),
            Ghost(bound),
        );
        k = level;
    }
    let result = sort_by_price(orders);
    (result, false, None, issues)
}

} // verus!
