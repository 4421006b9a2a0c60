//! The grid planner: lays out grid levels around the mark price (or inside a
//! configured price band), picks the active ones for the grid mode, and turns
//! them into post-only limit orders that each pass the risk gate.

use crate::config::AppConfig;
use crate::decimal::{
    abs_int, abs_spec, add_either, add_within, ceil_of, max_mantissa, mul_either, sub_either, dec_ceil, dec_div, dec_mul, dec_sub, dec_normalize, dec_round_dp, dec_to_string, decimal_text, difference_of,
    div_within, lemma_normalized_of, lemma_round_dp_at_most, lemma_round_dp_bound, lemma_round_dp_of, lemma_sum_at_most_zero, lemma_value_bound, mul_within,
    normalized_of, pow10, product_of, quotient_of, round_dp_of, safe_limit, sub_within, sum_of, text_of, unit, within, Dec,
};
use crate::text::{decimal_digits, usize_text};
use vstd::string::StringExecFns;
use crate::domain::{GridLevel, GridMode, OrderIntent, OrderIntentView, OrderSide, OrderType, PlannerOutput, Position, RiskReason};
use crate::precision::{flip_epsilon_spec, normalize_order_qty, normalize_position_size, normalize_qty_spec, order_precision_spec};
use crate::risk::{projected_spec, risk_decision_spec, signed_value, RiskEngine};
use crate::sort::{insertion_sorted, lemma_insertion_sorted_is_stable, lemma_insertion_sorted_items, stable_sort_by_key};
use vstd::prelude::*;

verus! {

/// Magnitudes the planner's inputs stay within: `10^12` in whole units.
#[verifier::inline]
pub open spec fn input_bound() -> int {
    1000000000000 * unit()
}

/// Magnitudes grid prices stay within: `5 * 10^26` in whole units.
#[verifier::inline]
pub open spec fn level_price_bound() -> int {
    500000000000000000000000000 * unit()
}

/// The largest level count the planner lays out.
#[verifier::inline]
pub open spec fn max_count() -> int {
    1000000
}

/// A configuration whose decimals and counts stay within the planner's range.
pub open spec fn config_ok(c: AppConfig) -> bool {
    &&& within(c.spacing_bps, input_bound())
    &&& within(c.order_size, input_bound())
    &&& within(c.max_position_abs, input_bound())
    &&& within(c.grid_short_bias_sell_ratio, input_bound())
    &&& (c.grid_min_price matches Some(p) ==> within(p, input_bound()))
    &&& (c.grid_max_price matches Some(p) ==> within(p, input_bound()))
    &&& c.levels <= max_count()
    &&& c.grid_active_levels <= max_count()
    &&& order_precision_spec(c.order_size) <= 25
}

/// A configuration of representable decimals whose order size carries at
/// most twenty-five places, so that the long-flip epsilon is representable.
pub open spec fn config_wf(c: AppConfig) -> bool {
    &&& c.spacing_bps.wf()
    &&& c.order_size.wf()
    &&& c.max_position_abs.wf()
    &&& c.grid_short_bias_sell_ratio.wf()
    &&& (c.grid_min_price matches Some(p) ==> p.wf())
    &&& (c.grid_max_price matches Some(p) ==> p.wf())
    &&& order_precision_spec(c.order_size) <= 25
}

/// Whether a configuration stays within the planner's range.
pub fn config_in_range(c: &AppConfig) -> (r: bool)
    ensures
        r == config_ok(*c),
{
    let bound: u64 = 1000000000000;
    let prices_ok = match c.grid_min_price {
        Some(p) => p.is_within(bound),
        None => true,
    } && match c.grid_max_price {
        Some(p) => p.is_within(bound),
        None => true,
    };
    c.spacing_bps.is_within(bound) && c.order_size.is_within(bound) && c.max_position_abs.is_within(bound)
        && c.grid_short_bias_sell_ratio.is_within(bound) && prices_ok && c.levels <= 1000000 && c.grid_active_levels
        <= 1000000 && crate::precision::order_precision_decimals(c.order_size) <= 25
}

/// A level the planner laid out: the configured order size at a price in range.
pub open spec fn level_ok(l: GridLevel, c: AppConfig) -> bool {
    &&& l.qty == c.order_size
    &&& within(l.price, level_price_bound())
}

/// A level the planner laid out: the configured order size at a
/// representable price, and within the planner's range when its inputs are.
pub open spec fn level_made(l: GridLevel, c: AppConfig, bounded: bool) -> bool {
    &&& l.qty == c.order_size
    &&& l.price.wf()
    &&& bounded ==> level_ok(l, c)
}

/// The arithmetic of spaced level `i` stays representable: the spacing
/// times `i`, one less and one plus the resulting ratio, and the mark times
/// each.
pub open spec fn spaced_fits(c: AppConfig, mid: Dec, i: nat) -> bool {
    let ratio = grid_ratio(c, i);
    &&& abs_int(c.spacing_bps@ * count_dec(i)@) <= safe_limit() * unit()
    &&& abs_int(one_dec()@ - ratio@) <= safe_limit()
    &&& abs_int(one_dec()@ + ratio@) <= safe_limit()
    &&& abs_int(mid@ * difference_of(one_dec(), ratio)@) <= safe_limit() * unit()
    &&& abs_int(mid@ * sum_of(one_dec(), ratio)@) <= safe_limit() * unit()
}

/// The arithmetic of band level `i` stays representable: the step times
/// `i`, and the lower bound moved by it.
pub open spec fn band_fits(c: AppConfig, i: nat) -> bool {
    &&& abs_int(band_step(c)@ * count_dec(i)@) <= safe_limit() * unit()
    &&& abs_int(c.grid_min_price.unwrap()@ + product_of(band_step(c), count_dec(i))@) <= safe_limit()
}

/// Laying out the grid computes only representable values.
pub open spec fn grid_fits(c: AppConfig, mid: Dec) -> bool {
    &&& mid.wf()
    &&& c.spacing_bps.wf()
    &&& c.order_size.wf()
    &&& (c.grid_min_price matches Some(p) ==> p.wf())
    &&& (c.grid_max_price matches Some(p) ==> p.wf())
    &&& if uses_price_band(c) {
        &&& c.levels < usize::MAX
        &&& abs_int(c.grid_max_price.unwrap()@ - c.grid_min_price.unwrap()@) <= safe_limit()
        &&& abs_int(difference_of(c.grid_max_price.unwrap(), c.grid_min_price.unwrap())@) * unit() <= safe_limit()
            * count_dec((c.levels + 1) as nat)@
        &&& forall|i: nat| 1 <= i <= c.levels ==> #[trigger] band_fits(c, i)
    } else {
        forall|i: nat| 1 <= i <= c.levels ==> #[trigger] spaced_fits(c, mid, i)
    }
}

pub open spec fn one_dec() -> Dec {
    Dec { mantissa: 1, scale: 0 }
}

pub open spec fn count_dec(n: nat) -> Dec {
    Dec { mantissa: n as i128, scale: 0 }
}

/// Prices are kept at two decimal places without trailing zeros.
pub open spec fn round_price_spec(v: Dec) -> Dec {
    normalized_of(round_dp_of(v, 2))
}

/// The distance of level `i` from the mark price: `spacing_bps * i / 10000`.
pub open spec fn grid_ratio(c: AppConfig, i: nat) -> Dec {
    quotient_of(product_of(c.spacing_bps, count_dec(i)), count_dec(10000))
}

pub open spec fn spaced_buy(c: AppConfig, mid: Dec, i: nat) -> GridLevel {
    GridLevel {
        index: i as usize,
        side: OrderSide::Buy,
        price: round_price_spec(product_of(mid, difference_of(one_dec(), grid_ratio(c, i)))),
        qty: c.order_size,
    }
}

pub open spec fn spaced_sell(c: AppConfig, mid: Dec, i: nat) -> GridLevel {
    GridLevel {
        index: i as usize,
        side: OrderSide::Sell,
        price: round_price_spec(product_of(mid, sum_of(one_dec(), grid_ratio(c, i)))),
        qty: c.order_size,
    }
}

/// Levels `1..=k` of a grid spaced around the mark price, a buy then a sell each.
pub open spec fn spaced_levels(c: AppConfig, mid: Dec, k: nat) -> Seq<GridLevel>
    decreases k,
{
    if k == 0 {
        Seq::empty()
    } else {
        spaced_levels(c, mid, (k - 1) as nat).push(spaced_buy(c, mid, k)).push(spaced_sell(c, mid, k))
    }
}

/// Both price bounds are set, the lower one positive and below the upper one.
pub open spec fn uses_price_band(c: AppConfig) -> bool {
    c.grid_min_price matches Some(lo) && c.grid_max_price matches Some(hi) && 0 < lo@ && lo@ < hi@
}

pub open spec fn band_step(c: AppConfig) -> Dec {
    quotient_of(
        difference_of(c.grid_max_price.unwrap(), c.grid_min_price.unwrap()),
        count_dec((c.levels + 1) as nat),
    )
}

pub open spec fn band_price(c: AppConfig, i: nat) -> Dec {
    round_price_spec(sum_of(c.grid_min_price.unwrap(), product_of(band_step(c), count_dec(i))))
}

/// Levels `1..=k` spread evenly inside the price band; a level at the
/// rounded mark price is left out, those below it buy and the rest sell.
pub open spec fn band_levels(c: AppConfig, mid: Dec, k: nat) -> Seq<GridLevel>
    decreases k,
{
    if k == 0 {
        Seq::empty()
    } else {
        let prev = band_levels(c, mid, (k - 1) as nat);
        let p = band_price(c, k);
        if p@ == round_price_spec(mid)@ {
            prev
        } else {
            prev.push(
                GridLevel {
                    index: k as usize,
                    side: if p@ < mid@ {
                        OrderSide::Buy
                    } else {
                        OrderSide::Sell
                    },
                    price: p,
                    qty: c.order_size,
                },
            )
        }
    }
}

pub open spec fn grid_levels_unsorted(c: AppConfig, mid: Dec) -> Seq<GridLevel> {
    if uses_price_band(c) {
        band_levels(c, mid, c.levels as nat)
    } else {
        spaced_levels(c, mid, c.levels as nat)
    }
}

pub open spec fn strip_keys(s: Seq<(Dec, GridLevel)>) -> Seq<GridLevel> {
    s.map_values(|p: (Dec, GridLevel)| p.1)
}

pub open spec fn keyed_by_price(s: Seq<GridLevel>) -> Seq<(Dec, GridLevel)> {
    s.map_values(|l: GridLevel| (l.price, l))
}

/// Levels sorted stably by price.
pub open spec fn price_sorted(s: Seq<GridLevel>) -> Seq<GridLevel> {
    strip_keys(insertion_sorted(keyed_by_price(s)))
}

/// The grid: all levels, sorted by price.
pub open spec fn grid_spec(c: AppConfig, mid: Dec) -> Seq<GridLevel> {
    price_sorted(grid_levels_unsorted(c, mid))
}


pub open spec fn keyed_by_distance(s: Seq<GridLevel>, mid: Dec) -> Seq<(Dec, GridLevel)> {
    s.map_values(|l: GridLevel| (abs_spec(difference_of(l.price, mid)), l))
}

/// Levels sorted stably by their distance from the mark price.
pub open spec fn distance_sorted(s: Seq<GridLevel>, mid: Dec) -> Seq<GridLevel> {
    strip_keys(insertion_sorted(keyed_by_distance(s, mid)))
}

/// The levels on one side, in order.
pub open spec fn side_filter(s: Seq<GridLevel>, side: OrderSide) -> Seq<GridLevel>
    decreases s.len(),
{
    if s.len() == 0 {
        Seq::empty()
    } else {
        let r = side_filter(s.drop_last(), side);
        if s.last().side == side {
            r.push(s.last())
        } else {
            r
        }
    }
}

/// `to_string().parse::<usize>()` of an integer-valued decimal at scale 0.
pub open spec fn integer_to_usize(d: Dec) -> Option<usize> {
    if d.scale == 0 && 0 <= d.mantissa <= usize::MAX {
        Some(d.mantissa as usize)
    } else {
        None
    }
}

pub open spec fn min_nat(a: nat, b: nat) -> nat {
    if a < b {
        a
    } else {
        b
    }
}

pub open spec fn neg_spec(d: Dec) -> Dec {
    Dec { mantissa: (-d.mantissa) as i128, scale: d.scale }
}

/// How many reduce-only buys short-only mode keeps: none without a short,
/// otherwise enough order sizes to cover the short, capped by the active
/// level count and the buys available.
/// A ceiling between -1 and 0 is a negative zero that does not read as a
/// count, and its fallback is the same zero.
pub open spec fn reduce_buy_slots(c: AppConfig, buys_len: nat, position: Option<&Position>) -> nat {
    match position {
        Some(p) => if p.size@ < 0 {
            let slots: nat = match integer_to_usize(ceil_of(quotient_of(neg_spec(p.size), c.order_size))) {
                Some(v) => v as nat,
                None => 0,
            };
            min_nat(min_nat(buys_len, c.grid_active_levels as nat), slots)
        } else {
            0
        },
        None => 0,
    }
}

/// How many sells short-bias mode keeps: the active level count times the
/// sell ratio, rounded, at least one and at most the sells available.
/// A product that rounds to zero reads as zero: `round` rebuilds its result
/// through `Decimal::from_parts`, which gives zero a positive sign.
pub open spec fn short_bias_sell_count(c: AppConfig, sells_len: nat) -> nat {
    let per = c.grid_active_levels;
    let raw = round_dp_of(product_of(count_dec(per as nat), c.grid_short_bias_sell_ratio), 0);
    let n: nat = match integer_to_usize(raw) {
        Some(v) => v as nat,
        None => per as nat,
    };
    min_nat(
        if n < 1 {
            1
        } else {
            n
        },
        sells_len,
    )
}

/// The buys then the sells the grid mode keeps, nearest to the mark first.
pub open spec fn picked_levels(c: AppConfig, sorted: Seq<GridLevel>, position: Option<&Position>) -> Seq<GridLevel> {
    let sells = side_filter(sorted, OrderSide::Sell);
    let buys = side_filter(sorted, OrderSide::Buy);
    let per = c.grid_active_levels as nat;
    match c.grid_mode {
        GridMode::ShortOnly => buys.take(reduce_buy_slots(c, buys.len(), position) as int) + sells.take(
            min_nat(per, sells.len()) as int,
        ),
        GridMode::ShortBias => buys.take(min_nat(per, buys.len()) as int) + sells.take(
            short_bias_sell_count(c, sells.len()) as int,
        ),
        GridMode::Neutral => buys.take(min_nat(per, buys.len()) as int) + sells.take(
            min_nat(per, sells.len()) as int,
        ),
    }
}

/// The active levels: those picked, sorted by price.
pub open spec fn select_spec(c: AppConfig, levels: Seq<GridLevel>, mid: Dec, position: Option<&Position>) -> Seq<
    GridLevel,
> {
    price_sorted(picked_levels(c, distance_sorted(levels, mid), position))
}

/// What the short-only reduce-buy count needs to be computed without overflow.
pub open spec fn position_ok(c: AppConfig, position: Option<&Position>) -> bool {
    match position {
        Some(p) => {
            &&& within(p.size, input_bound())
            &&& (c.grid_mode == GridMode::ShortOnly && p.size@ < 0 ==> c.order_size@ != 0
                && abs_int(p.size@) * unit() <= safe_limit() * abs_int(c.order_size@))
        },
        None => true,
    }
}

/// Every level's distance from the mark stays representable.
pub open spec fn distances_fit(levels: Seq<GridLevel>, mid: Dec) -> bool {
    &&& mid.wf()
    &&& forall|k: int|
        0 <= k < levels.len() ==> (#[trigger] levels[k]).price.wf() && abs_int(levels[k].price@ - mid@) <= safe_limit()
}

/// What selecting the active levels computes stays representable: each
/// level's distance from the mark; in short-only mode with a short, the
/// short's ratio to a non-zero order size; in short-bias mode, the active
/// level count times the sell ratio.
pub open spec fn select_fits(c: AppConfig, levels: Seq<GridLevel>, mid: Dec, position: Option<&Position>) -> bool {
    &&& distances_fit(levels, mid)
    &&& (c.grid_mode == GridMode::ShortOnly ==> match position {
        Some(p) => p.size.wf() && (p.size@ < 0 ==> c.order_size.wf() && c.order_size@ != 0 && abs_int(p.size@)
            * unit() <= safe_limit() * abs_int(c.order_size@)),
        None => true,
    })
    &&& (c.grid_mode == GridMode::ShortBias ==> c.grid_short_bias_sell_ratio.wf() && abs_int(
        count_dec(c.grid_active_levels as nat)@ * c.grid_short_bias_sell_ratio@,
    ) <= safe_limit() * unit())
}

/// Inside the planner's range, selecting levels stays representable.
proof fn lemma_select_fits_in_range(c: AppConfig, levels: Seq<GridLevel>, mid: Dec, position: Option<&Position>)
    requires
        config_ok(c),
        within(mid, input_bound()),
        levels_in_range(levels),
        position_ok(c, position),
    ensures
        select_fits(c, levels, mid, position),
{
    assert forall|k: int| 0 <= k < levels.len() implies (#[trigger] levels[k]).price.wf() && abs_int(
        levels[k].price@ - mid@,
    ) <= safe_limit() by {
        assert(within(levels[k].price, level_price_bound()));
    }
    if c.grid_mode == GridMode::ShortBias {
        let per = c.grid_active_levels as int;
        let x = count_dec(c.grid_active_levels as nat)@;
        let y = c.grid_short_bias_sell_ratio@;
        let u = unit();
        crate::decimal::lemma_unit();
        assert(x == per * u);
        assert(abs_int(x * y) <= safe_limit() * u) by (nonlinear_arith)
            requires
                x == per * u,
                0 <= per <= 1000000,
                abs_int(y) <= 1000000000000 * u,
                u == 10000000000000000000000000000,
        ;
    }
}

pub open spec fn levels_in_range(levels: Seq<GridLevel>) -> bool {
    forall|k: int| 0 <= k < levels.len() ==> within(#[trigger] levels[k].price, level_price_bound())
}

pub open spec fn members_of(r: Seq<GridLevel>, s: Seq<GridLevel>) -> bool {
    forall|k: int| 0 <= k < r.len() ==> exists|t: int| 0 <= t < s.len() && #[trigger] r[k] == s[t]
}

fn sort_by_distance(levels: &[GridLevel], mid: Dec) -> (r: Vec<GridLevel>)
    requires
        distances_fit(levels@, mid),
    ensures
        r@ == distance_sorted(levels@, mid),
        members_of(r@, levels@),
{
    let mut keyed: Vec<(Dec, GridLevel)> = Vec::new();
    let mut i: usize = 0;
    while i < levels.len()
        invariant
            i <= levels@.len(),
            distances_fit(levels@, mid),
            keyed@ == keyed_by_distance(levels@, mid).take(i as int),
            forall|k: int| 0 <= k < keyed@.len() ==> (#[trigger] keyed@[k]).0.wf(),
        decreases levels@.len() - i,
    {
        let l = levels[i];
        assert(levels@[i as int].price.wf() && abs_int(levels@[i as int].price@ - mid@) <= safe_limit());
        let d = dec_sub(l.price, mid);
        let key = d.abs();
        keyed.push((key, l));
        assert(keyed_by_distance(levels@, mid).take(i + 1) =~= keyed_by_distance(levels@, mid).take(i as int).push(
            (key, l),
        ));
        i = i + 1;
    }
    assert(keyed_by_distance(levels@, mid).take(levels@.len() as int) =~= keyed_by_distance(levels@, mid));
    let sorted = stable_sort_by_key(keyed);
    proof {
        lemma_insertion_sorted_items(keyed_by_distance(levels@, mid));
    }
    let mut out: Vec<GridLevel> = Vec::new();
    let mut j: usize = 0;
    while j < sorted.len()
        invariant
            j <= sorted@.len(),
            sorted@ == insertion_sorted(keyed_by_distance(levels@, mid)),
            out@ == strip_keys(sorted@).take(j as int),
        decreases sorted@.len() - j,
    {
        out.push(sorted[j].1);
        assert(strip_keys(sorted@).take(j + 1) =~= strip_keys(sorted@).take(j as int).push(sorted@[j as int].1));
        j = j + 1;
    }
    assert(strip_keys(sorted@).take(sorted@.len() as int) =~= strip_keys(sorted@));
    proof {
        assert forall|k: int| 0 <= k < out@.len() implies exists|t: int|
            0 <= t < levels@.len() && #[trigger] out@[k] == levels@[t] by {
            let t = choose|t: int|
                0 <= t < levels@.len() && sorted@[k] == keyed_by_distance(levels@, mid)[t];
            assert(out@[k] == levels@[t]);
        }
    }
    out
}

/// Filtering levels by side keeps only levels of that side, each taken from the input.
pub proof fn lemma_side_filter_members(s: Seq<GridLevel>, side: OrderSide)
    ensures
        members_of(side_filter(s, side), s),
        forall|k: int| 0 <= k < side_filter(s, side).len() ==> (#[trigger] side_filter(s, side)[k]).side == side,
    decreases s.len(),
{
    if s.len() > 0 {
        lemma_side_filter_members(s.drop_last(), side);
        let r = side_filter(s, side);
        let p = side_filter(s.drop_last(), side);
        assert forall|k: int| 0 <= k < r.len() implies exists|t: int| 0 <= t < s.len() && #[trigger] r[k] == s[t] by {
            if k < p.len() {
                let t = choose|t: int| 0 <= t < s.drop_last().len() && p[k] == s.drop_last()[t];
                assert(r[k] == s[t]);
            } else {
                assert(r[k] == s[s.len() - 1]);
            }
        }
    }
}

fn filter_side(levels: &Vec<GridLevel>, side: OrderSide) -> (r: Vec<GridLevel>)
    ensures
        r@ == side_filter(levels@, side),
{
    let mut out: Vec<GridLevel> = Vec::new();
    let mut i: usize = 0;
    assert(levels@.take(0) =~= Seq::<GridLevel>::empty());
    while i < levels.len()
        invariant
            i <= levels@.len(),
            out@ == side_filter(levels@.take(i as int), side),
        decreases levels@.len() - i,
    {
        let l = levels[i];
        assert(levels@.take(i + 1).drop_last() =~= levels@.take(i as int));
        if l.side == side {
            out.push(l);
        }
        i = i + 1;
    }
    assert(levels@.take(levels@.len() as int) =~= levels@);
    out
}

/// Appends the first `n` items of `src` (all of them when there are fewer).
fn append_prefix(out: &mut Vec<GridLevel>, src: &Vec<GridLevel>, n: usize)
    requires
        n <= src@.len(),
    ensures
        final(out)@ == old(out)@ + src@.take(n as int),
{
    let ghost start = out@;
    let mut i: usize = 0;
    while i < n
        invariant
            i <= n,
            n <= src@.len(),
            out@ == start + src@.take(i as int),
        decreases n - i,
    {
        out.push(src[i]);
        assert(src@.take(i + 1) =~= src@.take(i as int).push(src@[i as int]));
        assert(start + src@.take(i + 1) =~= (start + src@.take(i as int)).push(src@[i as int]));
        i = i + 1;
    }
}

fn min_usize(a: usize, b: usize) -> (r: usize)
    ensures
        r == min_nat(a as nat, b as nat),
{
    if a < b {
        a
    } else {
        b
    }
}

fn integer_value_to_usize(d: Dec) -> (r: Option<usize>)
    ensures
        r == integer_to_usize(d),
{
    if d.scale == 0 && 0 <= d.mantissa && d.mantissa <= usize::MAX as i128 {
        Some(d.mantissa as usize)
    } else {
        None
    }
}


/// `grid-<label>-<index>-<key>`.
pub open spec fn grid_id_spec(label: Seq<char>, index: nat, key: Dec) -> Seq<char> {
    "grid-"@ + label + "-"@ + decimal_digits(index) + "-"@ + text_of(key)
}

/// `format!("grid-{}-{}-{}", label, index, key)`, where `key` is the level
/// price in whole cents: its scale is zero, so its text holds no point to
/// strip.
fn grid_client_order_id(label: &str, index: usize, key: Dec) -> (r: String)
    requires
        key.wf(),
    ensures
        r@ == grid_id_spec(label@, index as nat, key),
{
    let mut id = String::from_str("grid-");
    id.append(label);
    id.append("-");
    id.append(usize_text(index).as_str());
    id.append("-");
    id.append(dec_to_string(key).as_str());
    id
}

pub open spec fn side_label_spec(side: OrderSide) -> Seq<char> {
    match side {
        OrderSide::Buy => "buy"@,
        OrderSide::Sell => "sell"@,
    }
}

pub fn side_label(side: OrderSide) -> (r: &'static str)
    ensures
        r@ == side_label_spec(side),
{
    match side {
        OrderSide::Buy => "buy",
        OrderSide::Sell => "sell",
    }
}

/// A level price in cents, rounded half to even to an integer.
pub open spec fn price_key_spec(price: Dec) -> Dec {
    round_dp_of(product_of(price, count_dec(100)), 0)
}

pub open spec fn planned_intent(c: AppConfig, level: GridLevel, qty: Dec, reduce_only: bool) -> OrderIntentView {
    let key = price_key_spec(level.price);
    OrderIntentView {
        client_order_id: grid_id_spec(side_label_spec(level.side), level.index as nat, key),
        symbol: c.symbol@,
        side: level.side,
        order_type: OrderType::Limit,
        price: level.price,
        qty,
        reduce_only,
        post_only: true,
    }
}

/// Where the planner stands after some levels: the projected position, the
/// orders it wants and the levels the risk gate turned down.
pub struct PlanState {
    pub planned: Dec,
    pub desired: Seq<OrderIntentView>,
    pub rejected: Seq<(GridLevel, RiskReason)>,
    pub projections: Seq<Dec>,
}

pub open spec fn max_dec(a: Dec, b: Dec) -> Dec {
    if a@ < b@ {
        b
    } else {
        a
    }
}

pub open spec fn min_dec(a: Dec, b: Dec) -> Dec {
    if a@ > b@ {
        b
    } else {
        a
    }
}

/// A buy in short-only mode only reduces the short.
pub open spec fn is_reduce_buy(c: AppConfig, level: GridLevel) -> bool {
    c.grid_mode == GridMode::ShortOnly && level.side == OrderSide::Buy
}

/// The quantity the planner would order at a level: a reduce-only buy is
/// capped at the short left, and every quantity is held at order precision.
pub open spec fn level_qty(c: AppConfig, planned: Dec, level: GridLevel) -> Dec {
    let raw = if is_reduce_buy(c, level) {
        min_dec(level.qty, max_dec(Dec::zero_spec(), neg_spec(planned)))
    } else {
        level.qty
    };
    normalize_qty_spec(raw, c.order_size)
}

/// One level: skipped when its quantity is not positive, recorded as
/// rejected when the risk gate says no, otherwise ordered, moving the
/// projected position (held at order precision).
pub open spec fn plan_step(c: AppConfig, eps: Dec, st: PlanState, level: GridLevel) -> PlanState {
    let reduce = is_reduce_buy(c, level);
    let qty = level_qty(c, st.planned, level);
    if qty@ <= 0 {
        st
    } else {
        let d = risk_decision_spec(c, eps, st.planned, level.side, qty);
        if !d.ok {
            PlanState {
                rejected: st.rejected.push(
                    (
                        level,
                        match d.reason {
                            Some(r) => r,
                            None => RiskReason::QtyMustBePositive,
                        },
                    ),
                ),
                ..st
            }
        } else {
            PlanState {
                planned: normalize_qty_spec(projected_spec(st.planned, level.side, qty), c.order_size),
                desired: st.desired.push(planned_intent(c, level, qty, reduce)),
                rejected: st.rejected,
                projections: st.projections.push(projected_spec(st.planned, level.side, qty)),
            }
        }
    }
}

pub open spec fn plan_fold(c: AppConfig, eps: Dec, levels: Seq<GridLevel>, init: Dec) -> PlanState
    decreases levels.len(),
{
    if levels.len() == 0 {
        PlanState { planned: init, desired: Seq::empty(), rejected: Seq::empty(), projections: Seq::empty() }
    } else {
        plan_step(c, eps, plan_fold(c, eps, levels.drop_last(), init), levels.last())
    }
}

/// The position the planner starts from: the current one (flat when
/// absent), held at order precision.
pub open spec fn starting_position(c: AppConfig, position: Option<&Position>) -> Dec {
    normalize_qty_spec(
        match position {
            Some(p) => p.size,
            None => Dec::zero_spec(),
        },
        c.order_size,
    )
}

/// The whole plan for a mark price and position.
pub open spec fn plan_spec(c: AppConfig, eps: Dec, mid: Dec, position: Option<&Position>) -> PlanState {
    plan_fold(c, eps, select_spec(c, grid_spec(c, mid), mid, position), starting_position(c, position))
}

/// The arithmetic of one planned level stays representable: the position
/// projected by its order when the risk gate looks at it, and its price in
/// cents when it is ordered.
pub open spec fn plan_step_fits(c: AppConfig, eps: Dec, st: PlanState, level: GridLevel) -> bool {
    let qty = level_qty(c, st.planned, level);
    &&& level.price.wf()
    &&& level.qty.wf()
    &&& (qty@ > 0 && !c.kill_switch ==> abs_int(st.planned@ + signed_value(level.side, qty)) <= safe_limit())
    &&& (qty@ > 0 && risk_decision_spec(c, eps, st.planned, level.side, qty).ok ==> abs_int(
        level.price@ * count_dec(100)@,
    ) <= safe_limit() * unit())
}

/// Every level of the plan fits, from the position planned before it.
pub open spec fn plan_fits(c: AppConfig, eps: Dec, levels: Seq<GridLevel>, init: Dec) -> bool {
    forall|i: int| 0 <= i < levels.len() ==> #[trigger] plan_step_fits(c, eps, plan_fold(c, eps, levels.take(i), init), levels[i])
}

/// Everything planning at `mid` computes stays representable: the grid, the
/// selection of active levels and each planned level.
pub open spec fn planner_fits(c: AppConfig, eps: Dec, mid: Dec, position: Option<&Position>) -> bool {
    &&& grid_fits(c, mid)
    &&& select_fits(c, grid_spec(c, mid), mid, position)
    &&& c.max_position_abs.wf()
    &&& (position matches Some(p) ==> p.size.wf())
    &&& plan_fits(c, eps, select_spec(c, grid_spec(c, mid), mid, position), starting_position(c, position))
}

/// The plan never goes long: the position it ends on is at most flat, and so
/// is the position each of its orders leaves behind, in the order they are
/// planned.
pub open spec fn never_long(st: PlanState) -> bool {
    &&& st.planned@ <= 0
    &&& forall|k: int| 0 <= k < st.projections.len() ==> (#[trigger] st.projections[k])@ <= 0
}

pub open spec fn intent_views(s: Seq<OrderIntent>) -> Seq<OrderIntentView> {
    s.map_values(|o: OrderIntent| o@)
}

fn round_price(v: Dec) -> (r: Dec)
    requires
        v.wf(),
    ensures
        r == round_price_spec(v),
        within(r, abs_int(v@) + unit()),
{
    proof {
        lemma_round_dp_of(v, 2);
        lemma_round_dp_bound(v, 2);
        lemma_normalized_of(round_dp_of(v, 2));
    }
    dec_normalize(dec_round_dp(v, 2))
}

/// Sorts levels stably by price.
fn sort_by_price(levels: Vec<GridLevel>) -> (r: Vec<GridLevel>)
    requires
        forall|k: int| 0 <= k < levels@.len() ==> (#[trigger] levels@[k]).price.wf(),
    ensures
        r@ == price_sorted(levels@),
        forall|k: int|
            0 <= k < r@.len() ==> exists|t: int| 0 <= t < levels@.len() && #[trigger] r@[k] == levels@[t],
{
    let mut keyed: Vec<(Dec, GridLevel)> = Vec::new();
    let mut i: usize = 0;
    while i < levels.len()
        invariant
            i <= levels@.len(),
            keyed@ == keyed_by_price(levels@).take(i as int),
        decreases levels@.len() - i,
    {
        let l = levels[i];
        keyed.push((l.price, l));
        assert(keyed_by_price(levels@).take(i + 1) =~= keyed_by_price(levels@).take(i as int).push((l.price, l)));
        i = i + 1;
    }
    assert(keyed_by_price(levels@).take(levels@.len() as int) =~= keyed_by_price(levels@));
    let sorted = stable_sort_by_key(keyed);
    proof {
        lemma_insertion_sorted_items(keyed_by_price(levels@));
    }
    let mut out: Vec<GridLevel> = Vec::new();
    let mut j: usize = 0;
    while j < sorted.len()
        invariant
            j <= sorted@.len(),
            sorted@ == insertion_sorted(keyed_by_price(levels@)),
            out@ == strip_keys(sorted@).take(j as int),
        decreases sorted@.len() - j,
    {
        out.push(sorted[j].1);
        assert(strip_keys(sorted@).take(j + 1) =~= strip_keys(sorted@).take(j as int).push(sorted@[j as int].1));
        j = j + 1;
    }
    assert(strip_keys(sorted@).take(sorted@.len() as int) =~= strip_keys(sorted@));
    proof {
        assert forall|k: int| 0 <= k < out@.len() implies exists|t: int|
            0 <= t < levels@.len() && #[trigger] out@[k] == levels@[t] by {
            let t = choose|t: int| 0 <= t < levels@.len() && sorted@[k] == keyed_by_price(levels@)[t];
            assert(out@[k] == levels@[t]);
        }
    }
    out
}

#[derive(Debug)]
pub struct GridPlanner {
    config: AppConfig,
    risk: RiskEngine,
}

impl Clone for GridPlanner {
    fn clone(&self) -> (r: Self)
        ensures
            r == *self,
    {
        GridPlanner { config: self.config.clone(), risk: self.risk.clone() }
    }
}

impl GridPlanner {
    pub closed spec fn config_view(&self) -> AppConfig {
        self.config
    }

    pub closed spec fn epsilon_view(&self) -> Dec {
        self.risk.epsilon_view()
    }

    pub closed spec fn inv(&self) -> bool {
        &&& self.risk.config_view() == self.config
        &&& self.risk.epsilon_view() == flip_epsilon_spec(self.config.order_size)
        &&& self.risk.epsilon_view().wf()
    }

    pub fn new(config: AppConfig) -> (r: GridPlanner)
        requires
            config.order_size.wf(),
            order_precision_spec(config.order_size) <= 25,
        ensures
            r.config_view() == config,
            r.epsilon_view() == flip_epsilon_spec(config.order_size),
            r.inv(),
    {
        let risk = RiskEngine::new(config.clone());
        GridPlanner { config, risk }
    }

    /// The level prices of a grid spaced around `mid`.
    fn spaced_prices(&self, mid: Dec, i: usize, Ghost(bounded): Ghost<bool>) -> (r: (Dec, Dec))
        requires
            mid.wf(),
            self.config.spacing_bps.wf(),
            1 <= i <= self.config.levels,
            bounded ==> config_ok(self.config) && within(mid, input_bound()),
            !bounded ==> spaced_fits(self.config, mid, i as nat),
        ensures
            r.0 == spaced_buy(self.config, mid, i as nat).price,
            r.1 == spaced_sell(self.config, mid, i as nat).price,
            r.0.wf(),
            r.1.wf(),
            bounded ==> within(r.0, level_price_bound()) && within(r.1, level_price_bound()),
    {
        let n = Dec::from_u64(i as u64);
        let scaled = mul_either(
            self.config.spacing_bps,
            n,
            Ghost(bounded),
            Ghost(input_bound()),
            Ghost(max_count() * unit()),
            Ghost(2000000000000000000 * unit()),
        );
        proof {
            lemma_value_bound(scaled);
        }
        let ratio = div_within(
            scaled,
            Dec::from_u64(10000),
            Ghost(
                if bounded {
                    2000000000000000000 * unit()
                } else {
                    max_mantissa() * unit()
                },
            ),
            Ghost(10000 * unit()),
            Ghost(
                if bounded {
                    300000000000000 * unit()
                } else {
                    max_mantissa() * unit()
                },
            ),
        );
        let one = Dec::one();
        let down = sub_either(one, ratio, Ghost(bounded), Ghost(unit()), Ghost(300000000000000 * unit()));
        let up = add_either(one, ratio, Ghost(bounded), Ghost(unit()), Ghost(300000000000000 * unit()));
        let buy = mul_either(
            mid,
            down,
            Ghost(bounded),
            Ghost(input_bound()),
            Ghost(400000000000000 * unit()),
            Ghost(450000000000000000000000000 * unit()),
        );
        let sell = mul_either(
            mid,
            up,
            Ghost(bounded),
            Ghost(input_bound()),
            Ghost(400000000000000 * unit()),
            Ghost(450000000000000000000000000 * unit()),
        );
        let bp = round_price(buy);
        let sp = round_price(sell);
        (bp, sp)
    }

    fn build_bounded_grid(&self, mid: Dec, Ghost(bounded): Ghost<bool>) -> (r: Option<Vec<GridLevel>>)
        requires
            bounded ==> config_ok(self.config) && within(mid, input_bound()),
            !bounded ==> grid_fits(self.config, mid),
        ensures
            r is Some == uses_price_band(self.config),
            r matches Some(v) ==> v@ == price_sorted(band_levels(self.config, mid, self.config.levels as nat)),
            r matches Some(v) ==> forall|k: int| 0 <= k < v@.len() ==> level_made(#[trigger] v@[k], self.config, bounded),
    {
        let min_price = match self.config.grid_min_price {
            Some(p) => p,
            None => return None,
        };
        let max_price = match self.config.grid_max_price {
            Some(p) => p,
            None => return None,
        };
        if !(Dec::zero().less_than(&min_price) && min_price.less_than(&max_price)) {
            return None;
        }
        let slices = Dec::from_u64((self.config.levels + 1) as u64);
        let width = sub_either(max_price, min_price, Ghost(bounded), Ghost(input_bound()), Ghost(input_bound()));
        proof {
            lemma_value_bound(width);
            if !bounded {
                assert(slices == count_dec((self.config.levels + 1) as nat));
                let w = abs_int(width@);
                let db = abs_int(slices@);
                let u = unit();
                assert(db >= u);
                assert(w * u + u * db <= max_mantissa() * unit() * db) by (nonlinear_arith)
                    requires
                        w * u <= safe_limit() * db,
                        safe_limit() == (max_mantissa() - 1) * u,
                ;
            }
        }
        let step = div_within(
            width,
            slices,
            Ghost(
                if bounded {
                    2 * input_bound() + unit()
                } else {
                    abs_int(width@)
                },
            ),
            Ghost(
                if bounded {
                    unit()
                } else {
                    abs_int(slices@)
                },
            ),
            Ghost(
                if bounded {
                    3 * input_bound()
                } else {
                    max_mantissa() * unit()
                },
            ),
        );
        let mid_rounded = round_price(mid);
        let mut levels: Vec<GridLevel> = Vec::new();
        let mut done: usize = 0;
        while done < self.config.levels
            invariant
                bounded ==> config_ok(self.config) && within(mid, input_bound()) && within(step, 3 * input_bound())
                    && within(min_price, input_bound()),
                !bounded ==> grid_fits(self.config, mid),
                uses_price_band(self.config),
                self.config.grid_min_price == Some(min_price),
                self.config.grid_max_price == Some(max_price),
                step == band_step(self.config),
                step.wf(),
                min_price.wf(),
                mid.wf(),
                mid_rounded == round_price_spec(mid),
                mid_rounded.wf(),
                done <= self.config.levels,
                levels@ == band_levels(self.config, mid, done as nat),
                forall|k: int| 0 <= k < levels@.len() ==> level_made(#[trigger] levels@[k], self.config, bounded),
            decreases self.config.levels - done,
        {
            let i = done + 1;
            proof {
                if !bounded {
                    assert(band_fits(self.config, i as nat));
                    assert(Dec::from_u64_spec(i as u64) == count_dec(i as nat));
                }
            }
            let offset = mul_either(
                step,
                Dec::from_u64(i as u64),
                Ghost(bounded),
                Ghost(3 * input_bound()),
                Ghost(max_count() * unit()),
                Ghost(4000000000000000000 * unit()),
            );
            let raw = add_either(min_price, offset, Ghost(bounded), Ghost(input_bound()), Ghost(4000000000000000000 * unit()));
            let price = round_price(raw);
            assert(bounded ==> within(price, level_price_bound()));
            assert(band_levels(self.config, mid, i as nat) == {
                let prev = band_levels(self.config, mid, (i - 1) as nat);
                if price@ == round_price_spec(mid)@ {
                    prev
                } else {
                    prev.push(
                        GridLevel {
                            index: i,
                            side: if price@ < mid@ {
                                OrderSide::Buy
                            } else {
                                OrderSide::Sell
                            },
                            price,
                            qty: self.config.order_size,
                        },
                    )
                }
            });
            if !price.same_value(&mid_rounded) {
                let side = if price.less_than(&mid) {
                    OrderSide::Buy
                } else {
                    OrderSide::Sell
                };
                levels.push(GridLevel { index: i, side, price, qty: self.config.order_size });
            }
            done = i;
        }
        let sorted = sort_by_price(levels);
        proof {
            assert forall|k: int| 0 <= k < sorted@.len() implies level_made(#[trigger] sorted@[k], self.config, bounded) by {
                let t = choose|t: int| 0 <= t < levels@.len() && sorted@[k] == levels@[t];
                assert(level_made(levels@[t], self.config, bounded));
            }
        }
        Some(sorted)
    }


    pub fn select_active_levels(&self, levels: &[GridLevel], mid_price: Dec, position: Option<&Position>) -> (r: Vec<
        GridLevel,
    >)
        requires
            select_fits(self.config_view(), levels@, mid_price, position),
        ensures
            r@ == select_spec(self.config_view(), levels@, mid_price, position),
            members_of(r@, levels@),
    {
        let sorted = sort_by_distance(levels, mid_price);
        let sells = filter_side(&sorted, OrderSide::Sell);
        let buys = filter_side(&sorted, OrderSide::Buy);
        proof {
            lemma_side_filter_members(sorted@, OrderSide::Sell);
            lemma_side_filter_members(sorted@, OrderSide::Buy);
        }
        let per_side = self.config.grid_active_levels;
        let (n_buys, n_sells): (usize, usize) = match self.config.grid_mode {
            GridMode::ShortOnly => {
                let reduce_buy_slots: usize = match position {
                    Some(p) => {
                        if p.size.less_than(&Dec::zero()) {
                            let neg = p.size.neg();
                            let needed = dec_ceil(dec_div(neg, self.config.order_size));
                            let slots = match integer_value_to_usize(needed) {
                                Some(v) => v,
                                None => 0,
                            };
                            min_usize(min_usize(buys.len(), per_side), slots)
                        } else {
                            0
                        }
                    },
                    None => 0,
                };
                (reduce_buy_slots, min_usize(per_side, sells.len()))
            },
            GridMode::ShortBias => {
                let scaled = dec_mul(Dec::from_u64(per_side as u64), self.config.grid_short_bias_sell_ratio);
                let rounded = dec_round_dp(scaled, 0);
                let n = match integer_value_to_usize(rounded) {
                    Some(v) => v,
                    None => per_side,
                };
                let n = if n < 1 {
                    1
                } else {
                    n
                };
                (min_usize(per_side, buys.len()), min_usize(n, sells.len()))
            },
            GridMode::Neutral => (min_usize(per_side, buys.len()), min_usize(per_side, sells.len())),
        };
        let mut out: Vec<GridLevel> = Vec::new();
        append_prefix(&mut out, &buys, n_buys);
        append_prefix(&mut out, &sells, n_sells);
        proof {
            let picked = out@;
            let b = side_filter(sorted@, OrderSide::Buy);
            let sl = side_filter(sorted@, OrderSide::Sell);
            assert(picked =~= b.take(n_buys as int) + sl.take(n_sells as int));
            assert(picked == picked_levels(self.config, sorted@, position));
            assert forall|k: int| 0 <= k < picked.len() implies exists|t: int|
                0 <= t < sorted@.len() && #[trigger] picked[k] == sorted@[t] by {
                if k < n_buys {
                    assert(picked[k] == b[k]);
                    let t = choose|t: int| 0 <= t < sorted@.len() && b[k] == sorted@[t];
                } else {
                    assert(picked[k] == sl[k - n_buys]);
                    let t = choose|t: int| 0 <= t < sorted@.len() && sl[k - n_buys] == sorted@[t];
                }
            }
            assert forall|k: int| 0 <= k < picked.len() implies (#[trigger] picked[k]).price.wf() by {
                let t = choose|t: int| 0 <= t < sorted@.len() && picked[k] == sorted@[t];
                let t2 = choose|t2: int| 0 <= t2 < levels@.len() && sorted@[t] == levels@[t2];
                assert(levels@[t2].price.wf());
            }
        }
        let r = sort_by_price(out);
        proof {
            assert forall|k: int| 0 <= k < r@.len() implies exists|t: int| 0 <= t < levels@.len() && #[trigger] r@[k]
                == levels@[t] by {
                let t = choose|t: int| 0 <= t < out@.len() && r@[k] == out@[t];
                let t1 = choose|t1: int| 0 <= t1 < sorted@.len() && out@[t] == sorted@[t1];
                let t2 = choose|t2: int| 0 <= t2 < levels@.len() && sorted@[t1] == levels@[t2];
            }
        }
        r
    }


    pub fn plan_orders(&self, mid_price: Dec, position: Option<&Position>) -> (r: PlannerOutput)
        requires
            self.inv(),
            config_ok(self.config_view()) && within(mid_price, input_bound()) && position_ok(self.config_view(), position)
                || planner_fits(self.config_view(), self.epsilon_view(), mid_price, position),
        ensures
            r.active_levels@ == select_spec(self.config_view(), grid_spec(self.config_view(), mid_price), mid_price, position),
            intent_views(r.desired_orders@) == plan_spec(self.config_view(), self.epsilon_view(), mid_price, position).desired,
            r.rejected_levels@ == plan_spec(self.config_view(), self.epsilon_view(), mid_price, position).rejected,
            r.projected_position_after_orders == plan_spec(self.config_view(), self.epsilon_view(), mid_price, position).planned,
            crate::execution::intents_ok(r.desired_orders@),
            self.config_view().grid_mode == GridMode::ShortOnly && starting_position(self.config_view(), position)@ <= 0
                ==> r.projected_position_after_orders@ <= 0 && never_long(
                plan_spec(self.config_view(), self.epsilon_view(), mid_price, position),
            ),
    {
        let ghost bounded = config_ok(self.config) && within(mid_price, input_bound()) && position_ok(self.config, position);
        let levels = self.grid_levels(mid_price, Ghost(bounded));
        proof {
            if bounded {
                assert forall|k: int| 0 <= k < levels@.len() implies within(#[trigger] levels@[k].price, level_price_bound()) by {
                    assert(level_made(levels@[k], self.config, bounded));
                }
                lemma_select_fits_in_range(self.config, levels@, mid_price, position);
            }
        }
        let active_levels = self.select_active_levels(levels.as_slice(), mid_price, position);
        let ghost active = active_levels@;
        proof {
            assert forall|k: int| 0 <= k < active.len() implies level_made(#[trigger] active[k], self.config, bounded) by {
                let t = choose|t: int| 0 <= t < levels@.len() && active[k] == levels@[t];
                assert(level_made(levels@[t], self.config, bounded));
            }
        }
        let ghost c = self.config;
        let ghost eps = self.risk.epsilon_view();
        let ghost init = starting_position(c, position);
        let position = match position {
            Some(p) => {
                assert(p.size.wf());
                assert(bounded ==> within(p.size, input_bound()));
                p.clone()
            },
            None => {
                let flat = Position::flat(self.config.symbol.as_str());
                assert(flat.size.mantissa == 0);
                assert(flat.size@ == 0) by (nonlinear_arith)
                    requires
                        flat.size@ == flat.size.mantissa * pow10((28 - flat.size.scale) as nat),
                        flat.size.mantissa == 0,
                ;
                flat
            },
        };
        assert(init == normalize_qty_spec(position.size, c.order_size));
        assert(bounded ==> within(position.size, input_bound()));
        let mut desired_orders: Vec<OrderIntent> = Vec::new();
        let mut rejected_levels: Vec<(GridLevel, RiskReason)> = Vec::new();
        proof {
            crate::precision::lemma_normalize_to_scale(position.size, order_precision_spec(c.order_size));
            lemma_round_dp_bound(position.size, order_precision_spec(c.order_size));
        }
        let mut planned_position = normalize_position_size(position.size, self.config.order_size);
        proof {
            lemma_normalized_of(c.order_size);
        }
        let mut idx: usize = 0;
        assert(active.take(0) =~= Seq::<GridLevel>::empty());
        while idx < active_levels.len()
            invariant
                self.inv(),
                bounded ==> config_ok(self.config),
                !bounded ==> plan_fits(c, eps, active, init),
                c == self.config,
                c.order_size.wf(),
                c.max_position_abs.wf(),
                eps == self.risk.epsilon_view(),
                active == active_levels@,
                forall|k: int| 0 <= k < active.len() ==> level_made(#[trigger] active[k], c, bounded),
                idx <= active.len(),
                planned_position.wf(),
                order_precision_spec(c.order_size) <= 25,
                planned_position.scale <= order_precision_spec(c.order_size),
                c.grid_mode == GridMode::ShortOnly && init@ <= 0 ==> never_long(
                    plan_fold(c, eps, active.take(idx as int), init),
                ),
                bounded ==> within(planned_position, 2 * input_bound()),
                planned_position == plan_fold(c, eps, active.take(idx as int), init).planned,
                intent_views(desired_orders@) == plan_fold(c, eps, active.take(idx as int), init).desired,
                rejected_levels@ == plan_fold(c, eps, active.take(idx as int), init).rejected,
                crate::execution::intents_ok(desired_orders@),
            decreases active.len() - idx,
        {
            let level = active_levels[idx];
            assert(level_made(level, c, bounded));
            assert(active.take(idx + 1).drop_last() =~= active.take(idx as int));
            assert(active.take(idx + 1).last() == level);
            proof {
                if !bounded {
                    assert(plan_step_fits(c, eps, plan_fold(c, eps, active.take(idx as int), init), active[idx as int]));
                }
            }
            let is_reduce = self.config.grid_mode == GridMode::ShortOnly && level.side == OrderSide::Buy;
            let short_left = planned_position.neg();
            let max_reducible = if is_reduce {
                Dec::zero().max(&short_left)
            } else {
                level.qty
            };
            let raw_qty = if is_reduce {
                level.qty.min(&max_reducible)
            } else {
                level.qty
            };
            assert(bounded ==> within(raw_qty, 2 * input_bound()));
            proof {
                crate::precision::lemma_normalize_to_scale(raw_qty, order_precision_spec(c.order_size));
                lemma_round_dp_bound(raw_qty, order_precision_spec(c.order_size));
            }
            let qty = normalize_order_qty(raw_qty, self.config.order_size);
            assert(bounded ==> within(qty, 3 * input_bound()));
            if qty.at_most(&Dec::zero()) {
                idx = idx + 1;
                continue;
            }
            let projected = Position {
                symbol: position.symbol.clone(),
                size: planned_position,
                entry_price: position.entry_price,
                unrealized_pnl: position.unrealized_pnl,
            };
            let decision = self.risk.validate_new_order(&projected, level.side, qty);
            if !decision.ok {
                let reason = match decision.reason {
                    Some(reason) => reason,
                    None => RiskReason::QtyMustBePositive,
                };
                rejected_levels.push((level, reason));
                idx = idx + 1;
                continue;
            }
            let key = mul_either(
                level.price,
                Dec::from_u64(100),
                Ghost(bounded),
                Ghost(level_price_bound()),
                Ghost(100 * unit()),
                Ghost(60000000000000000000000000000 * unit()),
            );
            let key = dec_round_dp(key, 0);
            proof {
                lemma_round_dp_of(product_of(level.price, count_dec(100)), 0);
            }
            let intent = OrderIntent {
                client_order_id: grid_client_order_id(side_label(level.side), level.index, key),
                symbol: self.config.symbol.clone(),
                side: level.side,
                order_type: OrderType::Limit,
                price: level.price,
                qty,
                reduce_only: is_reduce,
                post_only: true,
            };
            let ghost before = intent_views(desired_orders@);
            desired_orders.push(intent);
            assert(intent_views(desired_orders@) =~= before.push(intent@));
            let signed = match level.side {
                OrderSide::Buy => qty,
                OrderSide::Sell => qty.neg(),
            };
            let moved = add_either(planned_position, signed, Ghost(bounded), Ghost(2 * input_bound()), Ghost(3 * input_bound()));
            proof {
                if c.grid_mode == GridMode::ShortOnly && init@ <= 0 {
                    let d = order_precision_spec(c.order_size);
                    if level.side == OrderSide::Buy {
                        lemma_round_dp_at_most(raw_qty, d, short_left);
                    }
                    lemma_sum_at_most_zero(planned_position, signed, moved);
                    lemma_round_dp_at_most(moved, d, Dec::zero_spec());
                }
                crate::risk::lemma_allowed_order_within_limits(c, eps, planned_position, level.side, qty);
                crate::precision::lemma_normalize_to_scale(moved, order_precision_spec(c.order_size));
                lemma_round_dp_bound(moved, order_precision_spec(c.order_size));
            }
            planned_position = normalize_position_size(moved, self.config.order_size);
            idx = idx + 1;
        }
        assert(active.take(active.len() as int) =~= active);
        PlannerOutput {
            active_levels,
            desired_orders,
            rejected_levels,
            projected_position_after_orders: planned_position,
        }
    }

    /// The grid around `mid_price`: inside the price band when one is set,
    /// otherwise spaced around the mark.
    pub fn build_grid(&self, mid_price: Dec) -> (r: Vec<GridLevel>)
        requires
            config_ok(self.config_view()) && within(mid_price, input_bound()) || grid_fits(self.config_view(), mid_price),
        ensures
            r@ == grid_spec(self.config_view(), mid_price),
            forall|k: int| 0 <= k < r@.len() ==> (#[trigger] r@[k]).qty == self.config_view().order_size && r@[k].price.wf(),
    {
        let ghost bounded = config_ok(self.config) && within(mid_price, input_bound());
        let r = self.grid_levels(mid_price, Ghost(bounded));
        proof {
            assert forall|k: int| 0 <= k < r@.len() implies (#[trigger] r@[k]).qty == self.config.order_size
                && r@[k].price.wf() by {
                assert(level_made(r@[k], self.config, bounded));
            }
        }
        r
    }

    fn grid_levels(&self, mid_price: Dec, Ghost(bounded): Ghost<bool>) -> (r: Vec<GridLevel>)
        requires
            bounded ==> config_ok(self.config_view()) && within(mid_price, input_bound()),
            !bounded ==> grid_fits(self.config_view(), mid_price),
        ensures
            r@ == grid_spec(self.config_view(), mid_price),
            forall|k: int| 0 <= k < r@.len() ==> level_made(#[trigger] r@[k], self.config_view(), bounded),
    {
        if let Some(levels) = self.build_bounded_grid(mid_price, Ghost(bounded)) {
            return levels;
        }
        let mut levels: Vec<GridLevel> = Vec::new();
        let mut done: usize = 0;
        while done < self.config.levels
            invariant
                bounded ==> config_ok(self.config) && within(mid_price, input_bound()),
                !bounded ==> grid_fits(self.config, mid_price),
                !uses_price_band(self.config),
                mid_price.wf(),
                self.config.spacing_bps.wf(),
                self.config.order_size.wf(),
                done <= self.config.levels,
                levels@ == spaced_levels(self.config, mid_price, done as nat),
                forall|k: int| 0 <= k < levels@.len() ==> level_made(#[trigger] levels@[k], self.config, bounded),
            decreases self.config.levels - done,
        {
            let i = done + 1;
            proof {
                if !bounded {
                    assert(spaced_fits(self.config, mid_price, i as nat));
                }
            }
            let (buy_price, sell_price) = self.spaced_prices(mid_price, i, Ghost(bounded));
            levels.push(GridLevel { index: i, side: OrderSide::Buy, price: buy_price, qty: self.config.order_size });
            levels.push(GridLevel { index: i, side: OrderSide::Sell, price: sell_price, qty: self.config.order_size });
            done = i;
        }
        let sorted = sort_by_price(levels);
        proof {
            assert forall|k: int| 0 <= k < sorted@.len() implies level_made(#[trigger] sorted@[k], self.config, bounded) by {
                let t = choose|t: int| 0 <= t < levels@.len() && sorted@[k] == levels@[t];
                assert(level_made(levels@[t], self.config, bounded));
            }
        }
        sorted
    }
}

} // verus!

verus! {

/// Sorting levels by price keeps their number and takes each from the input.
pub proof fn lemma_price_sorted_members(s: Seq<GridLevel>)
    ensures
        price_sorted(s).len() == s.len(),
        members_of(price_sorted(s), s),
{
    lemma_insertion_sorted_items(keyed_by_price(s));
    let sorted = insertion_sorted(keyed_by_price(s));
    assert forall|k: int| 0 <= k < price_sorted(s).len() implies exists|t: int|
        0 <= t < s.len() && #[trigger] price_sorted(s)[k] == s[t] by {
        let t = choose|t: int| 0 <= t < s.len() && sorted[k] == keyed_by_price(s)[t];
        assert(price_sorted(s)[k] == s[t]);
    }
}

proof fn lemma_band_level_sides(c: AppConfig, mid: Dec, k: nat)
    ensures
        forall|t: int|
            0 <= t < band_levels(c, mid, k).len() ==> ((#[trigger] band_levels(c, mid, k)[t]).side == OrderSide::Buy)
                == (band_levels(c, mid, k)[t].price@ < mid@),
    decreases k,
{
    if k > 0 {
        lemma_band_level_sides(c, mid, (k - 1) as nat);
        let prev = band_levels(c, mid, (k - 1) as nat);
        let cur = band_levels(c, mid, k);
        assert forall|t: int| 0 <= t < cur.len() implies ((#[trigger] cur[t]).side == OrderSide::Buy) == (
        cur[t].price@ < mid@) by {
            if t < prev.len() {
                assert(cur[t] == prev[t]);
            }
        }
    }
}

proof fn lemma_band_levels_skip_mark(c: AppConfig, mid: Dec, k: nat)
    ensures
        forall|t: int|
            0 <= t < band_levels(c, mid, k).len() ==> (#[trigger] band_levels(c, mid, k)[t]).price@ != round_price_spec(
                mid,
            )@,
    decreases k,
{
    if k > 0 {
        lemma_band_levels_skip_mark(c, mid, (k - 1) as nat);
        let prev = band_levels(c, mid, (k - 1) as nat);
        let cur = band_levels(c, mid, k);
        assert forall|t: int| 0 <= t < cur.len() implies (#[trigger] cur[t]).price@ != round_price_spec(mid)@ by {
            if t < prev.len() {
                assert(cur[t] == prev[t]);
            }
        }
    }
}

/// The grid comes out in rising price order, and a grid laid inside the price
/// band holds no level at the mark price rounded to cents.
pub proof fn lemma_grid_sorted_clear_of_mark(c: AppConfig, mid: Dec)
    ensures
        forall|a: int, b: int|
            0 <= a < b < grid_spec(c, mid).len() ==> (#[trigger] grid_spec(c, mid)[a]).price@ <= (#[trigger] grid_spec(
                c,
                mid,
            )[b]).price@,
        uses_price_band(c) ==> forall|t: int|
            0 <= t < grid_spec(c, mid).len() ==> (#[trigger] grid_spec(c, mid)[t]).price@ != round_price_spec(mid)@,
{
    let levels = grid_levels_unsorted(c, mid);
    let keyed = keyed_by_price(levels);
    let sorted = insertion_sorted(keyed);
    let p = lemma_insertion_sorted_is_stable(keyed);
    assert forall|k: int| 0 <= k < sorted.len() implies (#[trigger] sorted[k]).0 == sorted[k].1.price by {
        assert(sorted[k] == keyed[p[k]]);
    }
    assert forall|a: int, b: int| 0 <= a < b < grid_spec(c, mid).len() implies (#[trigger] grid_spec(c, mid)[a]).price@
        <= (#[trigger] grid_spec(c, mid)[b]).price@ by {
        assert(grid_spec(c, mid)[a] == sorted[a].1);
        assert(grid_spec(c, mid)[b] == sorted[b].1);
        assert(sorted[a].0 == sorted[a].1.price);
        assert(sorted[b].0 == sorted[b].1.price);
    }
    if uses_price_band(c) {
        lemma_band_levels_skip_mark(c, mid, c.levels as nat);
        lemma_price_sorted_members(levels);
        assert forall|t: int| 0 <= t < grid_spec(c, mid).len() implies (#[trigger] grid_spec(c, mid)[t]).price@
            != round_price_spec(mid)@ by {
            let u = choose|u: int| 0 <= u < levels.len() && grid_spec(c, mid)[t] == levels[u];
            assert(levels[u] == band_levels(c, mid, c.levels as nat)[u]);
        }
    }
}

/// In a grid laid inside the price band, a level is a buy exactly when it is
/// priced below the mark: every level below the mark buys, and every level
/// at or above it sells.
pub proof fn lemma_band_grid_sides(c: AppConfig, mid: Dec)
    requires
        uses_price_band(c),
    ensures
        forall|t: int|
            0 <= t < grid_spec(c, mid).len() ==> ((#[trigger] grid_spec(c, mid)[t]).side == OrderSide::Buy)
                == (grid_spec(c, mid)[t].price@ < mid@),
{
    let levels = band_levels(c, mid, c.levels as nat);
    lemma_band_level_sides(c, mid, c.levels as nat);
    lemma_price_sorted_members(levels);
    assert forall|t: int| 0 <= t < grid_spec(c, mid).len() implies ((#[trigger] grid_spec(c, mid)[t]).side
        == OrderSide::Buy) == (grid_spec(c, mid)[t].price@ < mid@) by {
        let u = choose|u: int| 0 <= u < levels.len() && grid_spec(c, mid)[t] == levels[u];
        assert(levels[u] == band_levels(c, mid, c.levels as nat)[u]);
    }
}

/// What holds of every plan, level by level: each order comes from a level
/// on the same side; in short-only mode each buy is reduce-only; each order's
/// projected position stays within the hard cap and, in short-only mode, at
/// most epsilon above flat.
pub proof fn lemma_plan_fold_facts(c: AppConfig, eps: Dec, levels: Seq<GridLevel>, init: Dec)
    ensures
        plan_fold(c, eps, levels, init).desired.len() == plan_fold(c, eps, levels, init).projections.len(),
        forall|k: int|
            0 <= k < plan_fold(c, eps, levels, init).desired.len() ==> exists|t: int|
                0 <= t < levels.len() && (#[trigger] plan_fold(c, eps, levels, init).desired[k]).side
                    == levels[t].side,
        forall|k: int|
            0 <= k < plan_fold(c, eps, levels, init).desired.len() && c.grid_mode == GridMode::ShortOnly && (
            #[trigger] plan_fold(c, eps, levels, init).desired[k]).side == OrderSide::Buy
                ==> plan_fold(c, eps, levels, init).desired[k].reduce_only,
        forall|k: int|
            0 <= k < plan_fold(c, eps, levels, init).desired.len() ==> (#[trigger] plan_fold(
                c,
                eps,
                levels,
                init,
            ).desired[k]).reduce_only == (c.grid_mode == GridMode::ShortOnly && plan_fold(c, eps, levels, init).desired[k].side
                == OrderSide::Buy),
        forall|k: int|
            0 <= k < plan_fold(c, eps, levels, init).projections.len() ==> abs_int(
                (#[trigger] plan_fold(c, eps, levels, init).projections[k])@,
            ) <= c.max_position_abs@ && (c.grid_mode == GridMode::ShortOnly
                ==> plan_fold(c, eps, levels, init).projections[k]@ <= eps@),
    decreases levels.len(),
{
    if levels.len() > 0 {
        let prev = plan_fold(c, eps, levels.drop_last(), init);
        lemma_plan_fold_facts(c, eps, levels.drop_last(), init);
        let level = levels.last();
        let st = plan_fold(c, eps, levels, init);
        let qty = level_qty(c, prev.planned, level);
        if qty@ > 0 && risk_decision_spec(c, eps, prev.planned, level.side, qty).ok {
            crate::risk::lemma_allowed_order_within_limits(c, eps, prev.planned, level.side, qty);
        }
        assert forall|k: int| 0 <= k < st.desired.len() implies exists|t: int|
            0 <= t < levels.len() && (#[trigger] st.desired[k]).side == levels[t].side by {
            if k < prev.desired.len() {
                assert(st.desired[k] == prev.desired[k]);
                let t = choose|t: int|
                    0 <= t < levels.drop_last().len() && prev.desired[k].side == levels.drop_last()[t].side;
                assert(levels.drop_last()[t] == levels[t]);
            } else {
                assert(st.desired[k].side == levels[levels.len() - 1].side);
            }
        }
        assert forall|k: int|
            0 <= k < st.desired.len() && c.grid_mode == GridMode::ShortOnly && (
            #[trigger] st.desired[k]).side == OrderSide::Buy implies st.desired[k].reduce_only by {
            if k < prev.desired.len() {
                assert(st.desired[k] == prev.desired[k]);
            }
        }
        assert forall|k: int| 0 <= k < st.desired.len() implies (#[trigger] st.desired[k]).reduce_only == (
        c.grid_mode == GridMode::ShortOnly && st.desired[k].side == OrderSide::Buy) by {
            if k < prev.desired.len() {
                assert(st.desired[k] == prev.desired[k]);
            }
        }
        assert forall|k: int| 0 <= k < st.projections.len() implies abs_int(
            (#[trigger] st.projections[k])@,
        ) <= c.max_position_abs@ && (c.grid_mode == GridMode::ShortOnly ==> st.projections[k]@ <= eps@) by {
            if k < prev.projections.len() {
                assert(st.projections[k] == prev.projections[k]);
            }
        }
    }
}

/// Every order the planner wants passed the risk gate: its projected
/// position stays within `max_position_abs` and, in short-only mode, never
/// goes more than epsilon above flat; an order is reduce-only exactly when
/// it is a buy in short-only mode.
pub proof fn lemma_plan_respects_risk(c: AppConfig, eps: Dec, mid: Dec, position: Option<&Position>)
    ensures
        plan_spec(c, eps, mid, position).desired.len() == plan_spec(c, eps, mid, position).projections.len(),
        forall|k: int|
            0 <= k < plan_spec(c, eps, mid, position).projections.len() ==> abs_int(
                (#[trigger] plan_spec(c, eps, mid, position).projections[k])@,
            ) <= c.max_position_abs@ && (c.grid_mode == GridMode::ShortOnly
                ==> plan_spec(c, eps, mid, position).projections[k]@ <= eps@),
        forall|k: int|
            0 <= k < plan_spec(c, eps, mid, position).desired.len() && c.grid_mode == GridMode::ShortOnly && (
            #[trigger] plan_spec(c, eps, mid, position).desired[k]).side == OrderSide::Buy
                ==> plan_spec(c, eps, mid, position).desired[k].reduce_only,
        forall|k: int|
            0 <= k < plan_spec(c, eps, mid, position).desired.len() ==> (#[trigger] plan_spec(
                c,
                eps,
                mid,
                position,
            ).desired[k]).reduce_only == (c.grid_mode == GridMode::ShortOnly && plan_spec(c, eps, mid, position).desired[k].side
                == OrderSide::Buy),
{
    lemma_plan_fold_facts(
        c,
        eps,
        select_spec(c, grid_spec(c, mid), mid, position),
        starting_position(c, position),
    );
}

/// In short-only mode, without a short position (none, flat or long), the
/// plan holds no buy orders.
pub proof fn lemma_short_only_without_short_plans_no_buys(
    c: AppConfig,
    eps: Dec,
    mid: Dec,
    position: Option<&Position>,
)
    requires
        c.grid_mode == GridMode::ShortOnly,
        match position {
            Some(p) => p.size@ >= 0,
            None => true,
        },
    ensures
        forall|k: int|
            0 <= k < plan_spec(c, eps, mid, position).desired.len() ==> (#[trigger] plan_spec(
                c,
                eps,
                mid,
                position,
            ).desired[k]).side == OrderSide::Sell,
{
    let sorted = distance_sorted(grid_spec(c, mid), mid);
    let picked = picked_levels(c, sorted, position);
    let sells = side_filter(sorted, OrderSide::Sell);
    lemma_side_filter_members(sorted, OrderSide::Sell);
    assert(reduce_buy_slots(c, side_filter(sorted, OrderSide::Buy).len(), position) == 0);
    assert(picked =~= sells.take(min_nat(c.grid_active_levels as nat, sells.len()) as int));
    let active = select_spec(c, grid_spec(c, mid), mid, position);
    lemma_price_sorted_members(picked);
    assert forall|t: int| 0 <= t < active.len() implies (#[trigger] active[t]).side == OrderSide::Sell by {
        let u = choose|u: int| 0 <= u < picked.len() && active[t] == picked[u];
        assert(picked[u] == sells[u]);
    }
    let init = starting_position(c, position);
    lemma_plan_fold_facts(c, eps, active, init);
    assert forall|k: int| 0 <= k < plan_spec(c, eps, mid, position).desired.len() implies (#[trigger] plan_spec(
        c,
        eps,
        mid,
        position,
    ).desired[k]).side == OrderSide::Sell by {
        let t = choose|t: int| 0 <= t < active.len() && plan_spec(c, eps, mid, position).desired[k].side == active[t].side;
    }
}

} // verus!
