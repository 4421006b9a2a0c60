//! Reconciliation between what the planner wants and what the exchange
//! holds, and fills inferred from position changes when the exchange sent
//! none.

use crate::decimal::{
    abs_int, abs_spec, dec_add, dec_div, dec_mul, dec_sub, decimal_text, difference_of, exact_product, fits_at, max_nat, normalized_of, pow10,
    product_of, quotient_of, safe_limit, sum_of, unit, within, Dec,
};
use crate::domain::{OrderIntent, OrderIntentView, OrderSide, Position};
use crate::execution::{decimal_key, decimal_key_spec, existing_ok, existing_views, ExistingOrder, ExistingOrderView, ReconciliationDiff};
use crate::keys::{
    build_key_index, entries_without, has_key, key_index, lemma_entries_without_empty, lemma_entries_without_members,
    lemma_key_index_keyed_by, lemma_key_index_keys, pair_views, split_by_keys,
};
use crate::planner::{input_bound, intent_views, neg_spec};
use crate::precision::{normalize_to_scale, normalize_to_scale_spec, order_precision_decimals, order_precision_spec};
use crate::risk::{signed_qty_spec, signed_value};
use crate::text::text_equals;
use vstd::prelude::*;
use vstd::string::StringExecFns;

verus! {

#[derive(Debug, Clone, Copy, PartialEq, Eq, Structural)]
pub enum FillSource {
    AdapterEvent,
    ReconciliationFallback,
}

#[derive(Debug, Clone, Copy, PartialEq)]
pub struct FillMetrics {
    pub fee: Dec,
    pub realized_pnl: Dec,
    pub position_after: Dec,
    pub entry_price_after: Dec,
    pub closed_qty: Dec,
    pub opening_fill: bool,
}

#[derive(Debug, PartialEq)]
pub struct SyntheticFill {
    pub source: FillSource,
    pub symbol: String,
    pub side: OrderSide,
    pub qty: Dec,
    pub price: Option<Dec>,
    pub order_id: Option<String>,
    pub client_order_id: Option<String>,
    pub fee: Dec,
}

pub struct SyntheticFillView {
    pub source: FillSource,
    pub symbol: Seq<char>,
    pub side: OrderSide,
    pub qty: Dec,
    pub price: Option<Dec>,
    pub order_id: Option<Seq<char>>,
    pub client_order_id: Option<Seq<char>>,
    pub fee: Dec,
}

pub open spec fn opt_text(s: Option<String>) -> Option<Seq<char>> {
    match s {
        Some(t) => Some(t@),
        None => None,
    }
}

impl View for SyntheticFill {
    type V = SyntheticFillView;

    open spec fn view(&self) -> SyntheticFillView {
        SyntheticFillView {
            source: self.source,
            symbol: self.symbol@,
            side: self.side,
            qty: self.qty,
            price: self.price,
            order_id: opt_text(self.order_id),
            client_order_id: opt_text(self.client_order_id),
            fee: self.fee,
        }
    }
}

fn clone_opt_text(s: &Option<String>) -> (r: Option<String>)
    ensures
        r == *s,
{
    match s {
        Some(t) => Some(t.clone()),
        None => None,
    }
}

impl Clone for SyntheticFill {
    fn clone(&self) -> (r: Self)
        ensures
            r == *self,
    {
        SyntheticFill {
            source: self.source,
            symbol: self.symbol.clone(),
            side: self.side,
            qty: self.qty,
            price: self.price,
            order_id: clone_opt_text(&self.order_id),
            client_order_id: clone_opt_text(&self.client_order_id),
            fee: self.fee,
        }
    }
}

#[derive(Debug, PartialEq)]
pub struct ReconcileSnapshot {
    pub position: Option<Position>,
    pub orders: Vec<ExistingOrder>,
}

#[derive(Debug, PartialEq)]
pub struct ReconcileOutcome {
    pub diff: ReconciliationDiff,
    pub synthetic_fill: Option<SyntheticFill>,
}

impl Default for ReconcileOutcome {
    fn default() -> (r: Self)
        ensures
            r.diff.missing_on_exchange@.len() == 0,
            r.diff.unexpected_on_exchange@.len() == 0,
            r.diff.matched == 0,
            r.synthetic_fill is None,
    {
        ReconcileOutcome { diff: ReconciliationDiff::default(), synthetic_fill: None }
    }
}

pub open spec fn side_debug(side: OrderSide) -> Seq<char> {
    match side {
        OrderSide::Buy => "Buy"@,
        OrderSide::Sell => "Sell"@,
    }
}

pub open spec fn bool_text(b: bool) -> Seq<char> {
    if b {
        "true"@
    } else {
        "false"@
    }
}

/// `format!("{:?}:{}:{}:{}:{}", side, price.normalize(), qty, reduce_only, post_only)` with the
/// quantity rounded to `p` places and normalized, so that precision noise below
/// the keying precision does not tell two orders apart.
pub open spec fn reconcile_key_spec(i: OrderIntentView, p: nat) -> Seq<char> {
    side_debug(i.side) + ":"@ + decimal_key_spec(i.price) + ":"@ + decimal_key_spec(normalize_to_scale_spec(i.qty, p)) + ":"@ + bool_text(
        i.reduce_only,
    ) + ":"@ + bool_text(i.post_only)
}

pub open spec fn keyed_desired(s: Seq<OrderIntentView>, p: nat) -> Seq<(Seq<char>, OrderIntentView)> {
    s.map_values(|o: OrderIntentView| (reconcile_key_spec(o, p), o))
}

pub open spec fn keyed_current(s: Seq<ExistingOrderView>, p: nat) -> Seq<(Seq<char>, ExistingOrderView)> {
    s.map_values(|o: ExistingOrderView| (reconcile_key_spec(o.intent, p), o))
}

fn key_from_intent(intent: &OrderIntent, p: u32) -> (r: String)
    requires
        intent.price.wf(),
        intent.qty.wf(),
    ensures
        r@ == reconcile_key_spec(intent@, p as nat),
{
    proof {
        reveal_strlit("Buy");
        reveal_strlit("Sell");
        reveal_strlit("true");
        reveal_strlit("false");
        reveal_strlit(":");
    }
    let mut key = String::from_str(
        match intent.side {
            OrderSide::Buy => "Buy",
            OrderSide::Sell => "Sell",
        },
    );
    key.append(":");
    key.append(decimal_key(intent.price).as_str());
    key.append(":");
    key.append(decimal_key(normalize_to_scale(intent.qty, p)).as_str());
    key.append(":");
    key.append(
        if intent.reduce_only {
            "true"
        } else {
            "false"
        },
    );
    key.append(":");
    key.append(
        if intent.post_only {
            "true"
        } else {
            "false"
        },
    );
    key
}

/// The previous orders gone from the current ones (by order id) on `side`.
pub open spec fn missing_candidates(
    previous: Seq<ExistingOrderView>,
    current: Seq<ExistingOrderView>,
    side: OrderSide,
) -> Seq<ExistingOrderView>
    decreases previous.len(),
{
    if previous.len() == 0 {
        Seq::empty()
    } else {
        let p = missing_candidates(previous.drop_last(), current, side);
        let o = previous.last();
        if !id_present(current, o.order_id) && o.intent.side == side {
            p.push(o)
        } else {
            p
        }
    }
}

/// The first candidate whose quantity is within epsilon of `qty`.
pub open spec fn first_close(c: Seq<ExistingOrderView>, qty: Dec, eps: Dec) -> Option<ExistingOrderView>
    decreases c.len(),
{
    if c.len() == 0 {
        None
    } else if abs_spec(difference_of(c[0].intent.qty, qty))@ <= eps@ {
        Some(c[0])
    } else {
        first_close(c.drop_first(), qty, eps)
    }
}

/// The order a fill is put down to: the first close in quantity, else the first.
pub open spec fn fill_candidate(c: Seq<ExistingOrderView>, qty: Dec, eps: Dec) -> Option<ExistingOrderView> {
    match first_close(c, qty, eps) {
        Some(o) => Some(o),
        None => if c.len() > 0 {
            Some(c[0])
        } else {
            None
        },
    }
}

pub open spec fn size_or_zero(p: Option<&Position>) -> Dec {
    match p {
        Some(p) => p.size,
        None => Dec::zero_spec(),
    }
}

/// The fill inferred from a position change beyond epsilon: its side follows
/// the sign of the change, its quantity the size, and it is put down to a
/// vanished order on that side when there is one.
pub open spec fn inferred_fill_spec(
    symbol: Seq<char>,
    eps: Dec,
    before: Dec,
    after: Dec,
    previous: Seq<ExistingOrderView>,
    current: Seq<ExistingOrderView>,
) -> Option<SyntheticFillView> {
    let delta = difference_of(after, before);
    if abs_spec(delta)@ <= eps@ {
        None
    } else {
        let side = if delta@ > 0 {
            OrderSide::Buy
        } else {
            OrderSide::Sell
        };
        let qty = abs_spec(delta);
        let cand = fill_candidate(missing_candidates(previous, current, side), qty, eps);
        Some(
            SyntheticFillView {
                source: FillSource::ReconciliationFallback,
                symbol,
                side,
                qty,
                price: match cand {
                    Some(o) => Some(o.intent.price),
                    None => None,
                },
                order_id: match cand {
                    Some(o) => Some(o.order_id),
                    None => None,
                },
                client_order_id: match cand {
                    Some(o) => Some(o.client_order_id),
                    None => None,
                },
                fee: Dec::zero_spec(),
            },
        )
    }
}

pub open spec fn sign_of(v: int) -> int {
    if v > 0 {
        1
    } else if v < 0 {
        -1
    } else {
        0
    }
}

/// A fill's price, zero when it has none.
pub open spec fn fill_price_or_zero(fill: SyntheticFillView) -> Dec {
    match fill.price {
        Some(p) => p,
        None => Dec::zero_spec(),
    }
}

/// A fill that works against a position: the position is not flat and the
/// fill is not on its side.
pub open spec fn reduces(before_size: Dec, fill: SyntheticFillView) -> bool {
    before_size@ != 0 && sign_of(before_size@) != sign_of(signed_qty_spec(fill.side, fill.qty)@)
}

/// The price gain per unit closed, as `rust_decimal` computes it: the fill
/// price less the entry for a long, the entry less the fill price for a short.
pub open spec fn gain_dec(before_size: Dec, before_entry: Dec, fill_price: Dec) -> Dec {
    if before_size@ > 0 {
        difference_of(fill_price, before_entry)
    } else {
        difference_of(before_entry, fill_price)
    }
}

/// The exact price gain per unit closed.
pub open spec fn gain_value(before_size: Dec, before_entry: Dec, fill_price: Dec) -> int {
    if before_size@ > 0 {
        fill_price@ - before_entry@
    } else {
        before_entry@ - fill_price@
    }
}

pub open spec fn min_int(a: int, b: int) -> int {
    if a < b {
        a
    } else {
        b
    }
}

/// What a fill does to a position: how much it closes, the pnl it realizes,
/// the position and entry price after it, and whether it opened exposure.
pub open spec fn fill_metrics_spec(before_size: Dec, before_entry: Dec, fill: SyntheticFillView) -> FillMetrics {
    let fee = fill.fee;
    let fill_price = match fill.price {
        Some(p) => p,
        None => Dec::zero_spec(),
    };
    let signed = signed_qty_spec(fill.side, fill.qty);
    let after = sum_of(before_size, signed);
    if before_size@ == 0 {
        FillMetrics {
            fee,
            realized_pnl: Dec::zero_spec(),
            position_after: after,
            entry_price_after: fill_price,
            closed_qty: Dec::zero_spec(),
            opening_fill: true,
        }
    } else {
        let reducing = sign_of(before_size@) != sign_of(signed@);
        let b_abs = abs_spec(before_size);
        let s_abs = abs_spec(signed);
        let closed = if reducing {
            if b_abs@ > s_abs@ {
                s_abs
            } else {
                b_abs
            }
        } else {
            Dec::zero_spec()
        };
        let realized = if before_size@ > 0 {
            product_of(difference_of(fill_price, before_entry), closed)
        } else {
            product_of(difference_of(before_entry, fill_price), closed)
        };
        if !reducing {
            let total = sum_of(b_abs, s_abs);
            FillMetrics {
                fee,
                realized_pnl: Dec::zero_spec(),
                position_after: after,
                entry_price_after: if total@ == 0 {
                    Dec::zero_spec()
                } else {
                    quotient_of(sum_of(product_of(before_entry, b_abs), product_of(fill_price, s_abs)), total)
                },
                closed_qty: Dec::zero_spec(),
                opening_fill: true,
            }
        } else if after@ == 0 {
            FillMetrics {
                fee,
                realized_pnl: realized,
                position_after: Dec::zero_spec(),
                entry_price_after: Dec::zero_spec(),
                closed_qty: closed,
                opening_fill: false,
            }
        } else if sign_of(after@) == sign_of(before_size@) {
            FillMetrics {
                fee,
                realized_pnl: realized,
                position_after: after,
                entry_price_after: before_entry,
                closed_qty: closed,
                opening_fill: false,
            }
        } else {
            FillMetrics {
                fee,
                realized_pnl: realized,
                position_after: after,
                entry_price_after: fill_price,
                closed_qty: closed,
                opening_fill: false,
            }
        }
    }
}

/// A fill against a position closes the smaller of the position and the
/// fill, realizes the price gain on that closed quantity (the fill price less
/// the entry for a long, the entry less the fill price for a short, times the
/// closed quantity, as `rust_decimal` computes it), and opens nothing; the
/// entry price after it is zero when the position closes, the old entry while
/// the position keeps its side, and the fill price once it flips.
pub proof fn lemma_reducing_fill_realizes_gain(before_size: Dec, before_entry: Dec, fill: SyntheticFillView)
    requires
        before_size.wf(),
        fill.qty.wf(),
        reduces(before_size, fill),
    ensures
        fill_metrics_spec(before_size, before_entry, fill).closed_qty@ == min_int(abs_int(before_size@), abs_int(fill.qty@)),
        fill_metrics_spec(before_size, before_entry, fill).realized_pnl == product_of(
            gain_dec(before_size, before_entry, fill_price_or_zero(fill)),
            fill_metrics_spec(before_size, before_entry, fill).closed_qty,
        ),
        !fill_metrics_spec(before_size, before_entry, fill).opening_fill,
        fill_metrics_spec(before_size, before_entry, fill).position_after@ == 0 ==> fill_metrics_spec(
            before_size,
            before_entry,
            fill,
        ).entry_price_after == Dec::zero_spec(),
        sign_of(fill_metrics_spec(before_size, before_entry, fill).position_after@) == sign_of(before_size@)
            ==> fill_metrics_spec(before_size, before_entry, fill).entry_price_after == before_entry,
        sign_of(fill_metrics_spec(before_size, before_entry, fill).position_after@) == -sign_of(before_size@)
            ==> fill_metrics_spec(before_size, before_entry, fill).entry_price_after == fill_price_or_zero(fill),
{
    let signed = signed_qty_spec(fill.side, fill.qty);
    Dec::lemma_sign(before_size);
    Dec::lemma_sign(fill.qty);
    let p = pow10((28 - fill.qty.scale) as nat) as int;
    assert((-fill.qty.mantissa) * p == -(fill.qty.mantissa * p)) by (nonlinear_arith);
    assert(signed@ == signed_value(fill.side, fill.qty));
    let pb = pow10((28 - before_size.scale) as nat) as int;
    assert((-before_size.mantissa) * pb == -(before_size.mantissa * pb)) by (nonlinear_arith);
    assert(abs_spec(before_size)@ == abs_int(before_size@));
    assert(abs_spec(signed)@ == abs_int(fill.qty@));
}

/// What estimating a fill's metrics computes stays representable, step by
/// step as it computes: the size after the fill; when there was a position,
/// the price gain and the pnl on the closed quantity; and when the fill adds
/// to the position, the total size, the two price-weighted sizes, their sum
/// and its quotient by the total.
pub open spec fn fill_metrics_fit(before_size: Dec, before_entry: Dec, fill: SyntheticFillView) -> bool {
    let fill_price = match fill.price {
        Some(p) => p,
        None => Dec::zero_spec(),
    };
    let signed = signed_qty_spec(fill.side, fill.qty);
    &&& before_size.wf()
    &&& before_entry.wf()
    &&& fill_price.wf()
    &&& fill.qty.wf()
    &&& abs_int(before_size@ + signed@) <= safe_limit()
    &&& before_size@ != 0 ==> {
        let reducing = sign_of(before_size@) != sign_of(signed@);
        let b_abs = abs_spec(before_size);
        let s_abs = abs_spec(signed);
        let closed = if reducing {
            if b_abs@ > s_abs@ {
                s_abs
            } else {
                b_abs
            }
        } else {
            Dec::zero_spec()
        };
        let gain = if before_size@ > 0 {
            difference_of(fill_price, before_entry)
        } else {
            difference_of(before_entry, fill_price)
        };
        let p1 = product_of(before_entry, b_abs);
        let p2 = product_of(fill_price, s_abs);
        let total = sum_of(b_abs, s_abs);
        &&& abs_int(fill_price@ - before_entry@) <= safe_limit()
        &&& abs_int(gain@ * closed@) <= safe_limit() * unit()
        &&& !reducing ==> {
            &&& b_abs@ + s_abs@ <= safe_limit()
            &&& (total@ != 0 ==> {
                &&& abs_int(before_entry@ * b_abs@) <= safe_limit() * unit()
                &&& abs_int(fill_price@ * s_abs@) <= safe_limit() * unit()
                &&& abs_int(p1@ + p2@) <= safe_limit()
                &&& abs_int(sum_of(p1, p2)@) * unit() <= safe_limit() * abs_int(total@)
            })
        }
    }
}

pub open spec fn orders_in_range(s: Seq<ExistingOrder>) -> bool {
    forall|k: int|
        0 <= k < s.len() ==> (#[trigger] s[k]).intent.price.wf() && within(s[k].intent.qty, input_bound())
}

pub open spec fn intents_in_range(s: Seq<OrderIntent>) -> bool {
    forall|k: int| 0 <= k < s.len() ==> (#[trigger] s[k]).price.wf() && s[k].qty.wf()
}

pub open spec fn fill_view(f: Option<SyntheticFill>) -> Option<SyntheticFillView> {
    match f {
        Some(f) => Some(f@),
        None => None,
    }
}

pub open spec fn entry_or_zero(p: Option<&Position>) -> Dec {
    match p {
        Some(p) => p.entry_price,
        None => Dec::zero_spec(),
    }
}

pub open spec fn id_present(orders: Seq<ExistingOrderView>, id: Seq<char>) -> bool {
    exists|j: int| 0 <= j < orders.len() && (#[trigger] orders[j]).order_id == id
}

/// Whether some order carries this order id.
fn has_order_id(orders: &[ExistingOrder], id: &String) -> (r: bool)
    ensures
        r == id_present(existing_views(orders@), id@),
{
    let mut i: usize = 0;
    while i < orders.len()
        invariant
            i <= orders@.len(),
            forall|j: int| 0 <= j < i ==> orders@[j].order_id@ != id@,
        decreases orders@.len() - i,
    {
        if text_equals(orders[i].order_id.as_str(), id.as_str()) {
            assert(existing_views(orders@)[i as int].order_id == id@);
            return true;
        }
        i = i + 1;
    }
    assert forall|j: int| 0 <= j < existing_views(orders@).len() implies (#[trigger] existing_views(
        orders@,
    )[j]).order_id != id@ by {
        assert(existing_views(orders@)[j] == orders@[j]@);
    }
    false
}

/// The candidates for a missing order, one previous order further.
pub proof fn lemma_missing_candidates_step(
    previous: Seq<ExistingOrderView>,
    current: Seq<ExistingOrderView>,
    side: OrderSide,
    i: int,
)
    requires
        0 <= i < previous.len(),
    ensures
        missing_candidates(previous.take(i + 1), current, side) == (if !id_present(current, previous[i].order_id)
            && previous[i].intent.side == side {
            missing_candidates(previous.take(i), current, side).push(previous[i])
        } else {
            missing_candidates(previous.take(i), current, side)
        }),
{
    assert(previous.take(i + 1).drop_last() =~= previous.take(i));
    assert(previous.take(i + 1).last() == previous[i]);
}

/// The first candidate close in quantity, one candidate further.
pub proof fn lemma_first_close_step(c: Seq<ExistingOrderView>, qty: Dec, eps: Dec, i: int)
    requires
        0 <= i < c.len(),
    ensures
        first_close(c.skip(i), qty, eps) == (if abs_spec(difference_of(c[i].intent.qty, qty))@ <= eps@ {
            Some(c[i])
        } else {
            first_close(c.skip(i + 1), qty, eps)
        }),
{
    assert(c.skip(i).drop_first() =~= c.skip(i + 1));
    assert(c.skip(i)[0] == c[i]);
}

/// Desired orders whose key no current order has: one per key, in key order.
pub open spec fn missing_spec(current: Seq<ExistingOrderView>, desired: Seq<OrderIntentView>, p: nat) -> Seq<
    OrderIntentView,
> {
    entries_without(key_index::<String, OrderIntentView>(keyed_desired(desired, p)), keyed_current(current, p))
}

/// Current orders whose key no desired order has, in their order.
pub open spec fn unexpected_spec(current: Seq<ExistingOrderView>, desired: Seq<OrderIntentView>, p: nat) -> Seq<
    ExistingOrderView,
> {
    entries_without(keyed_current(current, p), key_index::<String, OrderIntentView>(keyed_desired(desired, p)))
}

/// The diff of current against desired orders, with the count of desired
/// orders matched.
pub open spec fn diff_matches(
    r: ReconciliationDiff,
    current: Seq<ExistingOrderView>,
    desired: Seq<OrderIntentView>,
    p: nat,
) -> bool {
    &&& intent_views(r.missing_on_exchange@) == missing_spec(current, desired, p)
    &&& existing_views(r.unexpected_on_exchange@) == unexpected_spec(current, desired, p)
    &&& r.matched == (if desired.len() >= r.missing_on_exchange@.len() {
        desired.len() - r.missing_on_exchange@.len()
    } else {
        0
    })
}

/// When the exchange holds exactly the desired keys, the diff is clean:
/// nothing missing, nothing unexpected, every desired order matched.
pub proof fn lemma_diff_is_clean_when_keys_match(
    r: ReconciliationDiff,
    current: Seq<ExistingOrderView>,
    desired: Seq<OrderIntentView>,
    p: nat,
)
    requires
        diff_matches(r, current, desired, p),
        forall|k: Seq<char>| has_key(keyed_desired(desired, p), k) == has_key(keyed_current(current, p), k),
    ensures
        r.missing_on_exchange@.len() == 0,
        r.unexpected_on_exchange@.len() == 0,
        r.matched == desired.len(),
{
    let di = key_index::<String, OrderIntentView>(keyed_desired(desired, p));
    let kc = keyed_current(current, p);
    assert forall|j: int| 0 <= j < di.len() implies has_key(kc, #[trigger] di[j].0) by {
        lemma_key_index_keys::<String, OrderIntentView>(keyed_desired(desired, p), di[j].0);
        assert(has_key(di, di[j].0));
    }
    assert forall|j: int| 0 <= j < kc.len() implies has_key(di, #[trigger] kc[j].0) by {
        lemma_key_index_keys::<String, OrderIntentView>(keyed_desired(desired, p), kc[j].0);
        assert(has_key(kc, kc[j].0));
    }
    lemma_entries_without_empty(di, kc);
    lemma_entries_without_empty(kc, di);
    assert(intent_views(r.missing_on_exchange@).len() == 0);
    assert(existing_views(r.unexpected_on_exchange@).len() == 0);
}

/// Drift is never silently dropped: every exchange order whose key no
/// desired order has is reported unexpected, and every desired order whose
/// key the exchange lacks has a missing order with its key reported.
pub proof fn lemma_diff_reports_drift(
    r: ReconciliationDiff,
    current: Seq<ExistingOrderView>,
    desired: Seq<OrderIntentView>,
    p: nat,
)
    requires
        diff_matches(r, current, desired, p),
    ensures
        forall|j: int|
            0 <= j < current.len() && !has_key(keyed_desired(desired, p), reconcile_key_spec(#[trigger] current[j].intent, p))
                ==> exists|m: int| 0 <= m < r.unexpected_on_exchange@.len() && r.unexpected_on_exchange@[m]@ == current[j],
        forall|j: int|
            0 <= j < desired.len() && !has_key(keyed_current(current, p), reconcile_key_spec(#[trigger] desired[j], p))
                ==> exists|m: int|
                0 <= m < r.missing_on_exchange@.len() && reconcile_key_spec(r.missing_on_exchange@[m]@, p)
                    == reconcile_key_spec(desired[j], p),
{
    let kd = keyed_desired(desired, p);
    let di = key_index::<String, OrderIntentView>(kd);
    let kc = keyed_current(current, p);
    lemma_entries_without_members(kc, di);
    lemma_entries_without_members(di, kc);
    let key_of = |o: OrderIntentView| reconcile_key_spec(o, p);
    assert forall|j: int| 0 <= j < kd.len() implies (#[trigger] kd[j]).0 == key_of(kd[j].1) by {}
    lemma_key_index_keyed_by::<String, OrderIntentView>(kd, key_of);
    assert forall|j: int|
        0 <= j < current.len() && !has_key(kd, reconcile_key_spec(#[trigger] current[j].intent, p)) implies exists|m: int|
        0 <= m < r.unexpected_on_exchange@.len() && r.unexpected_on_exchange@[m]@ == current[j] by {
        lemma_key_index_keys::<String, OrderIntentView>(kd, kc[j].0);
        assert(kc[j].0 == reconcile_key_spec(current[j].intent, p));
        assert(!has_key(di, kc[j].0));
        let m = choose|m: int| 0 <= m < entries_without(kc, di).len() && entries_without(kc, di)[m] == kc[j].1;
        assert(existing_views(r.unexpected_on_exchange@)[m] == r.unexpected_on_exchange@[m]@);
    }
    assert forall|j: int|
        0 <= j < desired.len() && !has_key(kc, reconcile_key_spec(#[trigger] desired[j], p)) implies exists|m: int|
        0 <= m < r.missing_on_exchange@.len() && reconcile_key_spec(r.missing_on_exchange@[m]@, p) == reconcile_key_spec(
            desired[j],
            p,
        ) by {
        let kk = reconcile_key_spec(desired[j], p);
        assert(kd[j].0 == kk);
        lemma_key_index_keys::<String, OrderIntentView>(kd, kk);
        let t = choose|t: int| 0 <= t < di.len() && di[t].0 == kk;
        assert(!has_key(kc, di[t].0));
        let m = choose|m: int| 0 <= m < entries_without(di, kc).len() && entries_without(di, kc)[m] == di[t].1;
        assert(intent_views(r.missing_on_exchange@)[m] == r.missing_on_exchange@[m]@);
        assert(di[t].0 == key_of(di[t].1));
    }
}

/// Each candidate's quantity, less a quantity within a unit of `change` in
/// magnitude, stays representable.
pub open spec fn candidate_gaps_fit(cands: Seq<ExistingOrderView>, change: int) -> bool {
    forall|k: int|
        0 <= k < cands.len() ==> (#[trigger] cands[k]).intent.qty.wf() && abs_int(cands[k].intent.qty@) + abs_int(
            change,
        ) + unit() <= safe_limit()
}

/// What inferring a fill computes stays representable: the change between
/// the sizes, and each vanished order's quantity less that change's
/// magnitude.
pub open spec fn fill_inputs_fit(
    before: Dec,
    after: Dec,
    previous: Seq<ExistingOrderView>,
    current: Seq<ExistingOrderView>,
) -> bool {
    &&& before.wf()
    &&& after.wf()
    &&& abs_int(after@ - before@) + unit() <= safe_limit()
    &&& candidate_gaps_fit(missing_candidates(previous, current, OrderSide::Buy), after@ - before@)
    &&& candidate_gaps_fit(missing_candidates(previous, current, OrderSide::Sell), after@ - before@)
}

/// Every candidate is one of the previous orders.
pub proof fn lemma_missing_candidates_from(
    previous: Seq<ExistingOrderView>,
    current: Seq<ExistingOrderView>,
    side: OrderSide,
)
    ensures
        forall|k: int|
            0 <= k < missing_candidates(previous, current, side).len() ==> exists|j: int|
                0 <= j < previous.len() && previous[j] == #[trigger] missing_candidates(previous, current, side)[k],
    decreases previous.len(),
{
    if previous.len() > 0 {
        let p = missing_candidates(previous.drop_last(), current, side);
        lemma_missing_candidates_from(previous.drop_last(), current, side);
        let c = missing_candidates(previous, current, side);
        assert forall|k: int| 0 <= k < c.len() implies exists|j: int|
            0 <= j < previous.len() && previous[j] == #[trigger] c[k] by {
            if k < p.len() {
                let j = choose|j: int| 0 <= j < previous.drop_last().len() && previous.drop_last()[j] == p[k];
                assert(previous[j] == previous.drop_last()[j]);
            } else {
                assert(previous[previous.len() - 1] == previous.last());
            }
        }
    }
}

pub open spec fn snapshot_size(s: ReconcileSnapshot) -> Dec {
    match s.position {
        Some(p) => p.size,
        None => Dec::zero_spec(),
    }
}

#[derive(Debug)]
pub struct ReconcileEngine {
    symbol: String,
    qty_epsilon: Dec,
    key_precision: u32,
}

impl Clone for ReconcileEngine {
    fn clone(&self) -> (r: Self)
        ensures
            r == *self,
    {
        ReconcileEngine { symbol: self.symbol.clone(), qty_epsilon: self.qty_epsilon, key_precision: self.key_precision }
    }
}

impl ReconcileEngine {
    pub closed spec fn symbol_view(&self) -> Seq<char> {
        self.symbol@
    }

    pub closed spec fn epsilon_view(&self) -> Dec {
        self.qty_epsilon
    }

    /// The decimal places quantities are keyed at in the diff.
    pub closed spec fn key_precision_view(&self) -> nat {
        self.key_precision as nat
    }

    /// An engine that tells fills by `qty_epsilon` and keys quantities at its
    /// precision.
    pub fn new(symbol: &str, qty_epsilon: Dec) -> (r: ReconcileEngine)
        requires
            qty_epsilon.wf(),
        ensures
            r.symbol_view() == symbol@,
            r.epsilon_view() == qty_epsilon,
            r.key_precision_view() == order_precision_spec(qty_epsilon),
    {
        ReconcileEngine { symbol: String::from_str(symbol), qty_epsilon, key_precision: order_precision_decimals(qty_epsilon) }
    }

    /// An engine that tells fills by `qty_epsilon` and keys quantities at the
    /// precision of the order size, as order keys do.
    pub fn for_order_size(symbol: &str, qty_epsilon: Dec, order_size: Dec) -> (r: ReconcileEngine)
        requires
            order_size.wf(),
        ensures
            r.symbol_view() == symbol@,
            r.epsilon_view() == qty_epsilon,
            r.key_precision_view() == order_precision_spec(order_size),
    {
        ReconcileEngine {
            symbol: String::from_str(symbol),
            qty_epsilon,
            key_precision: order_precision_decimals(order_size),
        }
    }


    /// The diff of the current orders against the desired ones, and the fill
    /// the position change between the two snapshots implies.
    pub fn reconcile(
        &self,
        previous: &ReconcileSnapshot,
        current: &ReconcileSnapshot,
        desired_orders: &[OrderIntent],
    ) -> (r: ReconcileOutcome)
        requires
            self.epsilon_view().wf(),
            existing_ok(current.orders@),
            fill_inputs_fit(
                snapshot_size(*previous),
                snapshot_size(*current),
                existing_views(previous.orders@),
                existing_views(current.orders@),
            ),
            intents_in_range(desired_orders@),
        ensures
            diff_matches(r.diff, existing_views(current.orders@), intent_views(desired_orders@), self.key_precision_view()),
            fill_view(r.synthetic_fill) == inferred_fill_spec(
                self.symbol_view(),
                self.epsilon_view(),
                snapshot_size(*previous),
                snapshot_size(*current),
                existing_views(previous.orders@),
                existing_views(current.orders@),
            ),
    {
        let diff = self.diff_orders(current.orders.as_slice(), desired_orders);
        let synthetic_fill = self.infer_fill_from_reconciliation(
            previous.position.as_ref(),
            current.position.as_ref(),
            previous.orders.as_slice(),
            current.orders.as_slice(),
        );
        ReconcileOutcome { diff, synthetic_fill }
    }

    /// Desired orders whose key no current order has (one per key, in key
    /// order), current orders whose key no desired order has (in their
    /// order), and how many desired orders were matched.
    pub fn diff_orders(&self, current_orders: &[ExistingOrder], desired_orders: &[OrderIntent]) -> (r:
        ReconciliationDiff)
        requires
            existing_ok(current_orders@),
            intents_in_range(desired_orders@),
        ensures
            diff_matches(r, existing_views(current_orders@), intent_views(desired_orders@), self.key_precision_view()),
    {
        let mut current: Vec<(String, ExistingOrder)> = Vec::new();
        let mut i: usize = 0;
        while i < current_orders.len()
            invariant
                i <= current_orders@.len(),
                existing_ok(current_orders@),
                pair_views(current@) == keyed_current(existing_views(current_orders@), self.key_precision_view()).take(i as int),
            decreases current_orders@.len() - i,
        {
            let order = current_orders[i].clone();
            assert(order.intent.price.wf() && order.intent.qty.wf());
            let key = key_from_intent(&order.intent, self.key_precision);
            let ghost prev = pair_views(current@);
            let ghost entry = (key@, order@);
            current.push((key, order));
            assert(pair_views(current@) =~= prev.push(entry));
            assert(keyed_current(existing_views(current_orders@), self.key_precision_view())[i as int] == entry);
            assert(keyed_current(existing_views(current_orders@), self.key_precision_view()).take(i + 1) =~= keyed_current(
                existing_views(current_orders@),
                self.key_precision_view(),
            ).take(i as int).push(entry));
            i = i + 1;
        }
        assert(keyed_current(existing_views(current_orders@), self.key_precision_view()).take(current_orders@.len() as int) =~= keyed_current(
            existing_views(current_orders@),
            self.key_precision_view(),
        ));
        let mut desired: Vec<(String, OrderIntent)> = Vec::new();
        let mut i: usize = 0;
        while i < desired_orders.len()
            invariant
                i <= desired_orders@.len(),
                intents_in_range(desired_orders@),
                pair_views(desired@) == keyed_desired(intent_views(desired_orders@), self.key_precision_view()).take(i as int),
            decreases desired_orders@.len() - i,
        {
            let intent = desired_orders[i].clone();
            let key = key_from_intent(&intent, self.key_precision);
            let ghost prev = pair_views(desired@);
            let ghost entry = (key@, intent@);
            desired.push((key, intent));
            assert(pair_views(desired@) =~= prev.push(entry));
            assert(keyed_desired(intent_views(desired_orders@), self.key_precision_view())[i as int] == entry);
            assert(keyed_desired(intent_views(desired_orders@), self.key_precision_view()).take(i + 1) =~= keyed_desired(
                intent_views(desired_orders@),
                self.key_precision_view(),
            ).take(i as int).push(entry));
            i = i + 1;
        }
        assert(keyed_desired(intent_views(desired_orders@), self.key_precision_view()).take(desired_orders@.len() as int) =~= keyed_desired(
            intent_views(desired_orders@),
            self.key_precision_view(),
        ));
        let desired_map = build_key_index(desired);
        let (unexpected_on_exchange, _) = split_by_keys(current, &desired_map);
        let (missing_on_exchange, _) = split_by_keys(desired_map, &self.current_keys(current_orders));
        let matched = if desired_orders.len() >= missing_on_exchange.len() {
            desired_orders.len() - missing_on_exchange.len()
        } else {
            0
        };
        ReconciliationDiff { missing_on_exchange, unexpected_on_exchange, matched }
    }


    /// A fill inferred from the position change between two snapshots, when
    /// it exceeds epsilon; put down to a vanished order on the fill's side,
    /// preferring one whose quantity matches.
    pub fn infer_fill_from_reconciliation(
        &self,
        previous_position: Option<&Position>,
        current_position: Option<&Position>,
        previous_orders: &[ExistingOrder],
        current_orders: &[ExistingOrder],
    ) -> (r: Option<SyntheticFill>)
        requires
            self.epsilon_view().wf(),
            fill_inputs_fit(
                size_or_zero(previous_position),
                size_or_zero(current_position),
                existing_views(previous_orders@),
                existing_views(current_orders@),
            ),
        ensures
            fill_view(r) == inferred_fill_spec(
                self.symbol_view(),
                self.epsilon_view(),
                size_or_zero(previous_position),
                size_or_zero(current_position),
                existing_views(previous_orders@),
                existing_views(current_orders@),
            ),
            fits_at(
                size_or_zero(current_position)@ - size_or_zero(previous_position)@,
                max_nat(size_or_zero(current_position).scale as nat, size_or_zero(previous_position).scale as nat),
            ) ==> {
                let change = size_or_zero(current_position)@ - size_or_zero(previous_position)@;
                &&& (r is None <==> abs_int(change) <= self.epsilon_view()@)
                &&& (r matches Some(f) ==> f.qty@ == abs_int(change) && size_or_zero(previous_position)@
                    + signed_value(f.side, f.qty) == size_or_zero(current_position)@)
            },
    {
        let before = match previous_position {
            Some(p) => p.size,
            None => Dec::zero(),
        };
        let after = match current_position {
            Some(p) => p.size,
            None => Dec::zero(),
        };
        let ghost change = after@ - before@;
        let delta = dec_sub(after, before);
        let qty = delta.abs();
        if qty.at_most(&self.qty_epsilon) {
            return None;
        }
        let side = if Dec::zero().less_than(&delta) {
            OrderSide::Buy
        } else {
            OrderSide::Sell
        };
        let ghost prev_v = existing_views(previous_orders@);
        let ghost cur_v = existing_views(current_orders@);
        let mut candidates: Vec<ExistingOrder> = Vec::new();
        let mut i: usize = 0;
        while i < previous_orders.len()
            invariant
                i <= previous_orders@.len(),
                prev_v == existing_views(previous_orders@),
                cur_v == existing_views(current_orders@),
                existing_views(candidates@) == missing_candidates(prev_v.take(i as int), cur_v, side),
            decreases previous_orders@.len() - i,
        {
            proof {
                lemma_missing_candidates_step(prev_v, cur_v, side, i as int);
                assert(prev_v[i as int] == previous_orders@[i as int]@);
            }
            let order = &previous_orders[i];
            if !has_order_id(current_orders, &order.order_id) && order.intent.side == side {
                let ghost before_push = candidates@;
                candidates.push(order.clone());
                assert(existing_views(candidates@) =~= existing_views(before_push).push(order@));
            }
            i = i + 1;
        }
        assert(prev_v.take(previous_orders@.len() as int) =~= prev_v);
        let ghost cand_v = existing_views(candidates@);
        assert(cand_v == missing_candidates(prev_v, cur_v, side));
        assert(candidate_gaps_fit(cand_v, change));
        let mut found: Option<usize> = None;
        let mut k: usize = 0;
        assert(cand_v.skip(0) =~= cand_v);
        while k < candidates.len()
            invariant_except_break
                found is None,
                first_close(cand_v, qty, self.epsilon_view()) == first_close(
                    cand_v.skip(k as int),
                    qty,
                    self.epsilon_view(),
                ),
            invariant
                k <= candidates@.len(),
                cand_v == existing_views(candidates@),
                candidate_gaps_fit(cand_v, change),
                qty.wf(),
                abs_int(qty@) <= abs_int(change) + unit(),
                self.epsilon_view().wf(),
            ensures
                found is None ==> k == candidates@.len() && first_close(cand_v, qty, self.epsilon_view())
                    == first_close(cand_v.skip(k as int), qty, self.epsilon_view()),
                found matches Some(j) ==> j < candidates@.len() && first_close(cand_v, qty, self.epsilon_view())
                    == Some(cand_v[j as int]),
            decreases candidates@.len() - k,
        {
            proof {
                lemma_first_close_step(cand_v, qty, self.epsilon_view(), k as int);
                assert(cand_v[k as int] == candidates@[k as int]@);
            }
            assert(cand_v[k as int].intent.qty.wf() && abs_int(cand_v[k as int].intent.qty@ - qty@) <= safe_limit());
            assert(cand_v[k as int].intent.qty.wf() && abs_int(cand_v[k as int].intent.qty@) + abs_int(change) + unit()
                <= safe_limit());
            let gap = dec_sub(candidates[k].intent.qty, qty);
            if gap.abs().at_most(&self.qty_epsilon) {
                found = Some(k);
                break;
            }
            k = k + 1;
        }
        proof {
            if found is None {
                assert(cand_v.skip(cand_v.len() as int) =~= Seq::<ExistingOrderView>::empty());
            }
        }
        let pick: Option<usize> = match found {
            Some(k) => Some(k),
            None => if candidates.len() > 0 {
                Some(0)
            } else {
                None
            },
        };
        let (price, order_id, client_order_id) = match pick {
            Some(k) => {
                let o = &candidates[k];
                (Some(o.intent.price), Some(o.order_id.clone()), Some(o.client_order_id.clone()))
            },
            None => (None, None, None),
        };
        Some(
            SyntheticFill {
                source: FillSource::ReconciliationFallback,
                symbol: self.symbol.clone(),
                side,
                qty,
                price,
                order_id,
                client_order_id,
                fee: Dec::zero(),
            },
        )
    }


    /// What a fill does to the position before it: the quantity it closes,
    /// the pnl that realizes, the size and entry price after it, and whether
    /// it opened exposure.
    pub fn estimate_fill_metrics(&self, position_before: Option<&Position>, fill: &SyntheticFill) -> (r: FillMetrics)
        requires
            fill_metrics_fit(size_or_zero(position_before), entry_or_zero(position_before), fill@),
        ensures
            r == fill_metrics_spec(size_or_zero(position_before), entry_or_zero(position_before), fill@),
            fits_at(
                size_or_zero(position_before)@ + signed_value(fill.side, fill.qty),
                max_nat(size_or_zero(position_before).scale as nat, fill.qty.scale as nat),
            ) ==> r.position_after@ == size_or_zero(position_before)@ + signed_value(fill.side, fill.qty),
            r.closed_qty@ <= abs_int(size_or_zero(position_before)@),
            r.closed_qty@ <= abs_int(fill.qty@),
            r.closed_qty@ >= 0,
            r.opening_fill <==> (size_or_zero(position_before)@ == 0 || (size_or_zero(position_before)@ > 0)
                == (signed_value(fill.side, fill.qty) > 0) && fill.qty@ != 0),
            reduces(size_or_zero(position_before), fill@) ==> {
                let gain = gain_value(size_or_zero(position_before), entry_or_zero(position_before), fill_price_or_zero(fill@));
                &&& r.closed_qty@ == min_int(abs_int(size_or_zero(position_before)@), abs_int(fill.qty@))
                &&& abs_int(r.realized_pnl@ * unit() - gain * r.closed_qty@) <= unit() * unit() + unit() * r.closed_qty@
                &&& (fits_at(
                    gain,
                    max_nat(fill_price_or_zero(fill@).scale as nat, entry_or_zero(position_before).scale as nat),
                ) && exact_product(
                    gain_dec(size_or_zero(position_before), entry_or_zero(position_before), fill_price_or_zero(fill@)),
                    r.closed_qty,
                ) ==> r.realized_pnl@ * unit() == gain * r.closed_qty@)
            },
    {
        let fee = fill.fee;
        let before_size = match position_before {
            Some(p) => p.size,
            None => Dec::zero(),
        };
        let before_entry = match position_before {
            Some(p) => p.entry_price,
            None => Dec::zero(),
        };
        let fill_price = match fill.price {
            Some(p) => p,
            None => Dec::zero(),
        };
        let signed = match fill.side {
            OrderSide::Buy => fill.qty,
            OrderSide::Sell => fill.qty.neg(),
        };
        proof {
            Dec::lemma_sign(before_size);
            Dec::lemma_sign(signed);
            Dec::lemma_sign(fill.qty);
        }
        let after = dec_add(before_size, signed);
        if before_size.is_zero() {
            return FillMetrics {
                fee,
                realized_pnl: Dec::zero(),
                position_after: after,
                entry_price_after: fill_price,
                closed_qty: Dec::zero(),
                opening_fill: true,
            };
        }
        let b_abs = before_size.abs();
        let s_abs = signed.abs();
        let reducing = before_size.signum().mantissa != signed.signum().mantissa;
        let closed = if reducing {
            b_abs.min(&s_abs)
        } else {
            Dec::zero()
        };
        let gain = if Dec::zero().less_than(&before_size) {
            dec_sub(fill_price, before_entry)
        } else {
            dec_sub(before_entry, fill_price)
        };
        let realized = dec_mul(gain, closed);
        proof {
            let u = unit();
            let gv = gain_value(before_size, before_entry, fill_price);
            assert(-u <= gain@ - gv <= u);
            assert(closed@ >= 0);
            assert(abs_int(realized@ * u - gv * closed@) <= u * u + u * closed@) by (nonlinear_arith)
                requires
                    -u * u <= realized@ * u - gain@ * closed@ <= u * u,
                    -u <= gain@ - gv <= u,
                    closed@ >= 0,
                    u > 0,
            ;
        }
        if !reducing {
            let total = dec_add(b_abs, s_abs);
            let entry_price_after = if total.is_zero() {
                Dec::zero()
            } else {
                let p1 = dec_mul(before_entry, b_abs);
                let p2 = dec_mul(fill_price, s_abs);
                let num = dec_add(p1, p2);
                dec_div(num, total)
            };
            return FillMetrics {
                fee,
                realized_pnl: Dec::zero(),
                position_after: after,
                entry_price_after,
                closed_qty: Dec::zero(),
                opening_fill: true,
            };
        }
        if after.is_zero() {
            return FillMetrics {
                fee,
                realized_pnl: realized,
                position_after: Dec::zero(),
                entry_price_after: Dec::zero(),
                closed_qty: closed,
                opening_fill: false,
            };
        }
        if after.signum().mantissa == before_size.signum().mantissa {
            return FillMetrics {
                fee,
                realized_pnl: realized,
                position_after: after,
                entry_price_after: before_entry,
                closed_qty: closed,
                opening_fill: false,
            };
        }
        FillMetrics {
            fee,
            realized_pnl: realized,
            position_after: after,
            entry_price_after: fill_price,
            closed_qty: closed,
            opening_fill: false,
        }
    }

    fn current_keys(&self, current_orders: &[ExistingOrder]) -> (r: Vec<(String, ExistingOrder)>)
        requires
            existing_ok(current_orders@),
        ensures
            pair_views(r@) == keyed_current(existing_views(current_orders@), self.key_precision_view()),
    {
        let mut current: Vec<(String, ExistingOrder)> = Vec::new();
        let mut i: usize = 0;
        while i < current_orders.len()
            invariant
                i <= current_orders@.len(),
                existing_ok(current_orders@),
                pair_views(current@) == keyed_current(existing_views(current_orders@), self.key_precision_view()).take(i as int),
            decreases current_orders@.len() - i,
        {
            let order = current_orders[i].clone();
            let key = key_from_intent(&order.intent, self.key_precision);
            let ghost prev = pair_views(current@);
            let ghost entry = (key@, order@);
            current.push((key, order));
            assert(pair_views(current@) =~= prev.push(entry));
            assert(keyed_current(existing_views(current_orders@), self.key_precision_view())[i as int] == entry);
            assert(keyed_current(existing_views(current_orders@), self.key_precision_view()).take(i + 1) =~= keyed_current(
                existing_views(current_orders@),
                self.key_precision_view(),
            ).take(i as int).push(entry));
            i = i + 1;
        }
        assert(keyed_current(existing_views(current_orders@), self.key_precision_view()).take(current_orders@.len() as int) =~= keyed_current(
            existing_views(current_orders@),
            self.key_precision_view(),
        ));
        current
    }
}

} // verus!
