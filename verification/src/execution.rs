//! The execution plan: which orders on the exchange to keep, which to
//! cancel and which desired orders to place, matched by order key.

use crate::config::AppConfig;
use crate::decimal::{dec_normalize, dec_to_string, decimal_from_text, decimal_text, lemma_normalized_of, normalized_of, round_dp_of, Dec};
use crate::domain::{OrderIntent, OrderIntentView, PlannerOutput};
use crate::keys::{
    build_key_index, entries_with, entries_without, has_key, key_index, lemma_entries_with_members, lemma_key_index_items,
    lemma_entries_without_empty, lemma_entries_without_members, lemma_indexes_match, lemma_key_index_keyed_by,
    lemma_key_index_keys, pair_views, split_by_keys, OrderKey, OrderKeyView,
};
use crate::planner::intent_views;
use crate::precision::{normalize_order_qty, normalize_qty_spec};
use vstd::prelude::*;
use vstd::string::StringExecFns;

verus! {

#[derive(Debug, PartialEq)]
pub struct ExistingOrder {
    pub order_id: String,
    pub client_order_id: String,
    pub intent: OrderIntent,
}

pub struct ExistingOrderView {
    pub order_id: Seq<char>,
    pub client_order_id: Seq<char>,
    pub intent: OrderIntentView,
}

impl View for ExistingOrder {
    type V = ExistingOrderView;

    open spec fn view(&self) -> ExistingOrderView {
        ExistingOrderView {
            order_id: self.order_id@,
            client_order_id: self.client_order_id@,
            intent: self.intent@,
        }
    }
}

impl Clone for ExistingOrder {
    fn clone(&self) -> (r: Self)
        ensures
            r == *self,
    {
        ExistingOrder {
            order_id: self.order_id.clone(),
            client_order_id: self.client_order_id.clone(),
            intent: self.intent.clone(),
        }
    }
}

pub open spec fn existing_views(s: Seq<ExistingOrder>) -> Seq<ExistingOrderView> {
    s.map_values(|o: ExistingOrder| o@)
}

#[derive(Debug, PartialEq)]
pub struct ReconciliationDiff {
    pub missing_on_exchange: Vec<OrderIntent>,
    pub unexpected_on_exchange: Vec<ExistingOrder>,
    pub matched: usize,
}

impl Default for ReconciliationDiff {
    fn default() -> (r: Self)
        ensures
            r.missing_on_exchange@.len() == 0,
            r.unexpected_on_exchange@.len() == 0,
            r.matched == 0,
    {
        ReconciliationDiff { missing_on_exchange: Vec::new(), unexpected_on_exchange: Vec::new(), matched: 0 }
    }
}

#[derive(Debug, PartialEq)]
pub struct ExecutionPlan {
    pub cancel: Vec<ExistingOrder>,
    pub place: Vec<OrderIntent>,
    pub keep: Vec<ExistingOrder>,
    pub diff: ReconciliationDiff,
}

impl Default for ExecutionPlan {
    fn default() -> (r: Self)
        ensures
            r.cancel@.len() == 0,
            r.place@.len() == 0,
            r.keep@.len() == 0,
            r.diff.missing_on_exchange@.len() == 0,
            r.diff.unexpected_on_exchange@.len() == 0,
            r.diff.matched == 0,
    {
        ExecutionPlan { cancel: Vec::new(), place: Vec::new(), keep: Vec::new(), diff: ReconciliationDiff::default() }
    }
}

#[derive(Debug, PartialEq)]
pub struct SyncGridResult {
    pub final_orders: Vec<ExistingOrder>,
    pub placed: Vec<OrderIntent>,
    pub cancelled: Vec<ExistingOrder>,
    pub diff: ReconciliationDiff,
}

/// `value.normalize().to_string()`.
pub open spec fn decimal_key_spec(value: Dec) -> Seq<char> {
    let n = normalized_of(value);
    decimal_text(n.mantissa as int, n.scale as int)
}

/// The key of an order: side, normalized price, quantity at order precision
/// (normalized), and the two flags.
pub open spec fn order_key_spec(c: AppConfig, intent: OrderIntentView) -> OrderKeyView {
    OrderKeyView {
        side: intent.side,
        price: decimal_key_spec(intent.price),
        qty: decimal_key_spec(normalize_qty_spec(intent.qty, c.order_size)),
        reduce_only: intent.reduce_only,
        post_only: intent.post_only,
    }
}

pub open spec fn desired_keyed(c: AppConfig, s: Seq<OrderIntentView>) -> Seq<(OrderKeyView, OrderIntentView)> {
    s.map_values(|o: OrderIntentView| (order_key_spec(c, o), o))
}

pub open spec fn existing_keyed(c: AppConfig, s: Seq<ExistingOrderView>) -> Seq<(OrderKeyView, ExistingOrderView)> {
    s.map_values(|o: ExistingOrderView| (order_key_spec(c, o.intent), o))
}

/// The desired orders indexed by key (the last one given for each key).
pub open spec fn desired_index(c: AppConfig, desired: Seq<OrderIntentView>) -> Seq<(OrderKeyView, OrderIntentView)> {
    key_index::<OrderKey, OrderIntentView>(desired_keyed(c, desired))
}

/// The exchange orders indexed by key (the last one given for each key).
pub open spec fn existing_index(c: AppConfig, existing: Seq<ExistingOrderView>) -> Seq<(OrderKeyView, ExistingOrderView)> {
    key_index::<OrderKey, ExistingOrderView>(existing_keyed(c, existing))
}

/// The key of an order reads back as the order: its side and flags, its
/// price without trailing zeros, and its quantity at the order size's
/// precision.
pub open spec fn key_reads_back(c: AppConfig, o: OrderIntentView) -> bool {
    let k = order_key_spec(c, o);
    &&& k.side == o.side
    &&& k.reduce_only == o.reduce_only
    &&& k.post_only == o.post_only
    &&& decimal_from_text(k.price) == Some((normalized_of(o.price).mantissa as int, normalized_of(o.price).scale as int))
    &&& decimal_from_text(k.qty) == Some(
        (normalize_qty_spec(o.qty, c.order_size).mantissa as int, normalize_qty_spec(o.qty, c.order_size).scale as int),
    )
}

/// Two orders the exchange cannot tell apart: same side and flags, the same
/// price once trailing zeros are dropped, and the same quantity at the order
/// size's precision.
pub open spec fn same_order(c: AppConfig, a: OrderIntentView, b: OrderIntentView) -> bool {
    &&& a.side == b.side
    &&& a.reduce_only == b.reduce_only
    &&& a.post_only == b.post_only
    &&& normalized_of(a.price) == normalized_of(b.price)
    &&& normalize_qty_spec(a.qty, c.order_size) == normalize_qty_spec(b.qty, c.order_size)
}

pub open spec fn intent_ok(i: OrderIntentView) -> bool {
    i.price.wf() && i.qty.wf()
}

pub open spec fn intents_ok(s: Seq<OrderIntent>) -> bool {
    forall|k: int| 0 <= k < s.len() ==> intent_ok((#[trigger] s[k])@)
}

pub open spec fn existing_ok(s: Seq<ExistingOrder>) -> bool {
    forall|k: int| 0 <= k < s.len() ==> intent_ok((#[trigger] s[k]).intent@)
}

/// Orders whose quantities differ at the order size's precision never share
/// a quantity key: each quantity key reads back as its own quantity, as
/// `order_key` gives it.
pub proof fn lemma_quantity_keys_differ(
    c: AppConfig,
    a: OrderIntentView,
    b: OrderIntentView,
    key_a: Seq<char>,
    key_b: Seq<char>,
)
    requires
        decimal_from_text(key_a) == Some(
            (
                normalize_qty_spec(a.qty, c.order_size).mantissa as int,
                normalize_qty_spec(a.qty, c.order_size).scale as int,
            ),
        ),
        decimal_from_text(key_b) == Some(
            (
                normalize_qty_spec(b.qty, c.order_size).mantissa as int,
                normalize_qty_spec(b.qty, c.order_size).scale as int,
            ),
        ),
        normalize_qty_spec(a.qty, c.order_size)@ != normalize_qty_spec(b.qty, c.order_size)@,
    ensures
        key_a != key_b,
{
}

pub fn decimal_key(value: Dec) -> (r: String)
    requires
        value.wf(),
    ensures
        r@ == decimal_key_spec(value),
        decimal_from_text(r@) == Some((normalized_of(value).mantissa as int, normalized_of(value).scale as int)),
{
    proof {
        lemma_normalized_of(value);
    }
    dec_to_string(dec_normalize(value))
}

fn clone_intents(v: &Vec<OrderIntent>) -> (r: Vec<OrderIntent>)
    ensures
        r@ == v@,
{
    let mut out: Vec<OrderIntent> = Vec::new();
    let mut i: usize = 0;
    while i < v.len()
        invariant
            i <= v@.len(),
            out@ == v@.take(i as int),
        decreases v@.len() - i,
    {
        out.push(v[i].clone());
        assert(out@ =~= v@.take(i + 1));
        i = i + 1;
    }
    assert(v@.take(v@.len() as int) =~= v@);
    out
}

pub(crate) fn clone_existing(v: &[ExistingOrder]) -> (r: Vec<ExistingOrder>)
    ensures
        r@ == v@,
{
    let mut out: Vec<ExistingOrder> = Vec::new();
    let mut i: usize = 0;
    while i < v.len()
        invariant
            i <= v@.len(),
            out@ == v@.take(i as int),
        decreases v@.len() - i,
    {
        out.push(v[i].clone());
        assert(out@ =~= v@.take(i + 1));
        i = i + 1;
    }
    assert(v@.take(v@.len() as int) =~= v@);
    out
}

#[derive(Debug)]
pub struct ExecutionEngine {
    config: AppConfig,
}

impl Clone for ExecutionEngine {
    fn clone(&self) -> (r: Self)
        ensures
            r == *self,
    {
        ExecutionEngine { config: self.config.clone() }
    }
}

/// The plan for `desired` against `existing`: place the desired orders whose
/// key is not on the exchange, cancel the exchange orders whose key is not
/// desired, keep the rest; each list in key order, one order per key; the
/// diff repeats the place and cancel lists and counts the kept orders.
pub open spec fn plan_matches(
    r: ExecutionPlan,
    c: AppConfig,
    desired: Seq<OrderIntentView>,
    existing: Seq<ExistingOrderView>,
) -> bool {
    &&& intent_views(r.place@) == entries_without(desired_index(c, desired), existing_index(c, existing))
    &&& existing_views(r.cancel@) == entries_without(existing_index(c, existing), desired_index(c, desired))
    &&& existing_views(r.keep@) == entries_with(existing_index(c, existing), desired_index(c, desired))
    &&& r.diff.missing_on_exchange@ == r.place@
    &&& r.diff.unexpected_on_exchange@ == r.cancel@
    &&& r.diff.matched == r.keep@.len()
}

/// What a dry run executes: the placed orders under the id `dryrun:` and
/// their client id, the cancelled orders, and the kept orders followed by
/// the placed ones as the orders left.
#[derive(Debug, PartialEq)]
pub struct ExecutedPlan {
    pub mode: String,
    pub placed: Vec<ExistingOrder>,
    pub cancelled: Vec<ExistingOrder>,
    pub final_orders: Vec<ExistingOrder>,
}

/// The exchange order a dry run stands in for an intent.
pub open spec fn dry_run_order(i: OrderIntentView) -> ExistingOrderView {
    ExistingOrderView { order_id: "dryrun:"@ + i.client_order_id, client_order_id: i.client_order_id, intent: i }
}

pub open spec fn dry_run_orders(s: Seq<OrderIntentView>) -> Seq<ExistingOrderView> {
    s.map_values(|i: OrderIntentView| dry_run_order(i))
}

/// The dry run of a plan.
pub open spec fn executed_matches(e: ExecutedPlan, plan: ExecutionPlan) -> bool {
    &&& e.mode@ == "dry_run"@
    &&& existing_views(e.placed@) == dry_run_orders(intent_views(plan.place@))
    &&& existing_views(e.cancelled@) == existing_views(plan.cancel@)
    &&& existing_views(e.final_orders@) == existing_views(plan.keep@) + dry_run_orders(intent_views(plan.place@))
}

/// Executes plans without an exchange.
#[derive(Debug, Clone, Copy)]
pub struct DryRunExecutionAdapter;

impl DryRunExecutionAdapter {
    pub fn new() -> (r: DryRunExecutionAdapter) {
        DryRunExecutionAdapter
    }

    /// The order a placement would leave on the exchange.
    pub fn place(&self, intent: &OrderIntent) -> (r: ExistingOrder)
        ensures
            r@ == dry_run_order(intent@),
    {
        proof {
            reveal_strlit("dryrun:");
        }
        let mut order_id = String::from_str("dryrun:");
        order_id.append(intent.client_order_id.as_str());
        ExistingOrder { order_id, client_order_id: intent.client_order_id.clone(), intent: intent.clone() }
    }
}

impl ExecutionEngine {
    pub closed spec fn config_view(&self) -> AppConfig {
        self.config
    }

    pub fn new(config: AppConfig) -> (r: ExecutionEngine)
        ensures
            r.config_view() == config,
    {
        ExecutionEngine { config }
    }

    pub fn order_key(&self, intent: &OrderIntent) -> (r: OrderKey)
        requires
            intent_ok(intent@),
            self.config_view().order_size.wf(),
        ensures
            r@ == order_key_spec(self.config_view(), intent@),
            r.side == intent.side,
            r.reduce_only == intent.reduce_only,
            r.post_only == intent.post_only,
            decimal_from_text(r.price_key@) == Some((normalized_of(intent.price).mantissa as int, normalized_of(intent.price).scale as int)),
            decimal_from_text(r.qty_key@) == Some(
                (
                    normalize_qty_spec(intent.qty, self.config_view().order_size).mantissa as int,
                    normalize_qty_spec(intent.qty, self.config_view().order_size).scale as int,
                ),
            ),
    {
        proof {
            crate::decimal::lemma_round_dp_of(intent.qty, crate::precision::order_precision_spec(self.config.order_size));
            crate::precision::lemma_normalized_fixed(
                round_dp_of(intent.qty, crate::precision::order_precision_spec(self.config.order_size)),
            );
            crate::precision::lemma_normalize_to_scale(
                intent.qty,
                crate::precision::order_precision_spec(self.config.order_size),
            );
        }
        OrderKey {
            side: intent.side,
            price_key: decimal_key(intent.price),
            qty_key: decimal_key(normalize_order_qty(intent.qty, self.config.order_size)),
            reduce_only: intent.reduce_only,
            post_only: intent.post_only,
        }
    }

    fn index_desired(&self, desired: &[OrderIntent]) -> (r: Vec<(OrderKey, OrderIntent)>)
        requires
            intents_ok(desired@),
            self.config.order_size.wf(),
        ensures
            pair_views(r@) == desired_index(self.config, intent_views(desired@)),
            forall|j: int| 0 <= j < desired@.len() ==> key_reads_back(self.config, #[trigger] desired@[j]@),
    {
        let mut keyed: Vec<(OrderKey, OrderIntent)> = Vec::new();
        let mut i: usize = 0;
        while i < desired.len()
            invariant
                i <= desired@.len(),
                intents_ok(desired@),
                self.config.order_size.wf(),
                pair_views(keyed@) == desired_keyed(self.config, intent_views(desired@)).take(i as int),
                forall|j: int| 0 <= j < i ==> key_reads_back(self.config, #[trigger] desired@[j]@),
            decreases desired@.len() - i,
        {
            let intent = desired[i].clone();
            assert(intent_ok(desired@[i as int]@));
            let key = self.order_key(&intent);
            let ghost prev = pair_views(keyed@);
            let ghost entry = (key@, intent@);
            keyed.push((key, intent));
            assert(pair_views(keyed@) =~= prev.push(entry));
            assert(desired_keyed(self.config, intent_views(desired@))[i as int] == entry);
            assert(desired_keyed(self.config, intent_views(desired@)).take(i + 1) =~= desired_keyed(
                self.config,
                intent_views(desired@),
            ).take(i as int).push(entry));
            i = i + 1;
        }
        assert(desired_keyed(self.config, intent_views(desired@)).take(desired@.len() as int) =~= desired_keyed(
            self.config,
            intent_views(desired@),
        ));
        build_key_index(keyed)
    }

    fn index_existing(&self, existing: &[ExistingOrder]) -> (r: Vec<(OrderKey, ExistingOrder)>)
        requires
            existing_ok(existing@),
            self.config.order_size.wf(),
        ensures
            pair_views(r@) == existing_index(self.config, existing_views(existing@)),
            forall|j: int| 0 <= j < existing@.len() ==> key_reads_back(self.config, #[trigger] existing@[j].intent@),
    {
        let mut keyed: Vec<(OrderKey, ExistingOrder)> = Vec::new();
        let mut i: usize = 0;
        while i < existing.len()
            invariant
                i <= existing@.len(),
                existing_ok(existing@),
                self.config.order_size.wf(),
                pair_views(keyed@) == existing_keyed(self.config, existing_views(existing@)).take(i as int),
                forall|j: int| 0 <= j < i ==> key_reads_back(self.config, #[trigger] existing@[j].intent@),
            decreases existing@.len() - i,
        {
            let order = existing[i].clone();
            assert(intent_ok(existing@[i as int].intent@));
            let key = self.order_key(&order.intent);
            let ghost prev = pair_views(keyed@);
            let ghost entry = (key@, order@);
            keyed.push((key, order));
            assert(pair_views(keyed@) =~= prev.push(entry));
            assert(existing_keyed(self.config, existing_views(existing@))[i as int] == entry);
            assert(existing_keyed(self.config, existing_views(existing@)).take(i + 1) =~= existing_keyed(
                self.config,
                existing_views(existing@),
            ).take(i as int).push(entry));
            i = i + 1;
        }
        assert(existing_keyed(self.config, existing_views(existing@)).take(existing@.len() as int) =~= existing_keyed(
            self.config,
            existing_views(existing@),
        ));
        build_key_index(keyed)
    }

    /// Places the desired orders whose key is not on the exchange, cancels
    /// the exchange orders whose key is not desired, keeps the rest; each
    /// list in key order, one order per key.
    pub fn build_plan(&self, desired: &[OrderIntent], existing: &[ExistingOrder]) -> (r: ExecutionPlan)
        requires
            intents_ok(desired@),
            existing_ok(existing@),
            self.config_view().order_size.wf(),
        ensures
            plan_matches(r, self.config_view(), intent_views(desired@), existing_views(existing@)),
            forall|k: int|
                0 <= k < r.keep@.len() ==> exists|j: int|
                    0 <= j < desired@.len() && #[trigger] same_order(
                        self.config_view(),
                        desired@[j]@,
                        (#[trigger] r.keep@[k]).intent@,
                    ),
    {
        let desired_index = self.index_desired(desired);
        let existing_index = self.index_existing(existing);
        let (place, _) = split_by_keys(desired_index, &existing_index);
        let (cancel, keep) = split_by_keys(existing_index, &self.index_desired(desired));
        let diff = ReconciliationDiff {
            missing_on_exchange: clone_intents(&place),
            unexpected_on_exchange: clone_existing(cancel.as_slice()),
            matched: keep.len(),
        };
        let r = ExecutionPlan { cancel, place, keep, diff };
        proof {
            let c = self.config;
            let dv = intent_views(desired@);
            let ev = existing_views(existing@);
            let a = crate::execution::existing_index(c, ev);
            let b = crate::execution::desired_index(c, dv);
            lemma_entries_with_members(a, b);
            lemma_key_index_keyed_by::<OrderKey, ExistingOrderView>(
                existing_keyed(c, ev),
                |o: ExistingOrderView| order_key_spec(c, o.intent),
            );
            lemma_key_index_items::<OrderKey, ExistingOrderView>(existing_keyed(c, ev));
            assert forall|k: int| 0 <= k < r.keep@.len() implies exists|j: int|
                0 <= j < desired@.len() && #[trigger] same_order(c, desired@[j]@, (#[trigger] r.keep@[k]).intent@) by {
                let e = r.keep@[k]@;
                assert(existing_views(r.keep@)[k] == e);
                let ja = choose|ja: int| 0 <= ja < a.len() && a[ja].1 == entries_with(a, b)[k] && has_key(b, a[ja].0);
                let u = choose|u: int| 0 <= u < existing_keyed(c, ev).len() && a[ja] == existing_keyed(c, ev)[u];
                assert(existing_keyed(c, ev)[u] == (order_key_spec(c, ev[u].intent), ev[u]));
                assert(ev[u] == existing@[u]@);
                assert(key_reads_back(c, existing@[u].intent@));
                lemma_key_index_keys::<OrderKey, OrderIntentView>(desired_keyed(c, dv), a[ja].0);
                let t = choose|t: int| 0 <= t < desired_keyed(c, dv).len() && desired_keyed(c, dv)[t].0 == a[ja].0;
                assert(desired_keyed(c, dv)[t] == (order_key_spec(c, dv[t]), dv[t]));
                assert(dv[t] == desired@[t]@);
                assert(key_reads_back(c, desired@[t]@));
                assert(same_order(c, desired@[t]@, r.keep@[k].intent@));
            }
        }
        r
    }

    /// What a synchronisation left on the exchange, with the plan's orders
    /// and the diff of the final orders against their own intents.
    pub fn project_sync_result(&self, plan: &ExecutionPlan, final_orders: &[ExistingOrder]) -> (r: SyncGridResult)
        requires
            existing_ok(final_orders@),
            self.config_view().order_size.wf(),
        ensures
            r.final_orders@ == final_orders@,
            r.placed@ == plan.place@,
            r.cancelled@ == plan.cancel@,
            intent_views(r.diff.missing_on_exchange@) == entries_without(
                desired_index(
                    self.config_view(),
                    existing_views(final_orders@).map_values(|o: ExistingOrderView| o.intent),
                ),
                existing_index(self.config_view(), existing_views(final_orders@)),
            ),
            existing_views(r.diff.unexpected_on_exchange@) == entries_without(
                existing_index(self.config_view(), existing_views(final_orders@)),
                desired_index(
                    self.config_view(),
                    existing_views(final_orders@).map_values(|o: ExistingOrderView| o.intent),
                ),
            ),
            r.diff.matched == entries_with(
                existing_index(self.config_view(), existing_views(final_orders@)),
                desired_index(
                    self.config_view(),
                    existing_views(final_orders@).map_values(|o: ExistingOrderView| o.intent),
                ),
            ).len(),
    {
        let mut intents: Vec<OrderIntent> = Vec::new();
        let mut i: usize = 0;
        while i < final_orders.len()
            invariant
                i <= final_orders@.len(),
                existing_ok(final_orders@),
                intent_views(intents@) == existing_views(final_orders@).map_values(|o: ExistingOrderView| o.intent).take(
                    i as int,
                ),
                intents_ok(intents@),
            decreases final_orders@.len() - i,
        {
            let intent = final_orders[i].intent.clone();
            assert(intent_ok(final_orders@[i as int].intent@));
            let ghost prev = intent_views(intents@);
            let ghost entry = intent@;
            intents.push(intent);
            assert(intent_views(intents@) =~= prev.push(entry));
            assert(existing_views(final_orders@).map_values(|o: ExistingOrderView| o.intent)[i as int] == entry);
            assert(existing_views(final_orders@).map_values(|o: ExistingOrderView| o.intent).take(i + 1)
                =~= existing_views(final_orders@).map_values(|o: ExistingOrderView| o.intent).take(i as int).push(
                entry,
            ));
            i = i + 1;
        }
        assert(existing_views(final_orders@).map_values(|o: ExistingOrderView| o.intent).take(
            final_orders@.len() as int,
        ) =~= existing_views(final_orders@).map_values(|o: ExistingOrderView| o.intent));
        let projected = self.build_plan(intents.as_slice(), final_orders);
        proof {
            assert(existing_views(projected.keep@).len() == projected.keep@.len());
        }
        SyncGridResult {
            final_orders: clone_existing(final_orders),
            placed: clone_intents(&plan.place),
            cancelled: clone_existing(plan.cancel.as_slice()),
            diff: projected.diff,
        }
    }


    /// Runs a plan through the dry-run adapter: nothing fails.
    pub fn execute(&self, adapter: &DryRunExecutionAdapter, plan: &ExecutionPlan) -> (r: ExecutedPlan)
        ensures
            executed_matches(r, *plan),
    {
        let mut placed: Vec<ExistingOrder> = Vec::new();
        let mut i: usize = 0;
        while i < plan.place.len()
            invariant
                i <= plan.place@.len(),
                existing_views(placed@) == dry_run_orders(intent_views(plan.place@)).take(i as int),
            decreases plan.place@.len() - i,
        {
            let order = adapter.place(&plan.place[i]);
            let ghost before = placed@;
            placed.push(order);
            assert(existing_views(placed@) =~= existing_views(before).push(order@));
            assert(dry_run_orders(intent_views(plan.place@)).take(i + 1) =~= dry_run_orders(
                intent_views(plan.place@),
            ).take(i as int).push(order@));
            i = i + 1;
        }
        assert(dry_run_orders(intent_views(plan.place@)).take(plan.place@.len() as int) =~= dry_run_orders(
            intent_views(plan.place@),
        ));
        let mut final_orders = clone_existing(plan.keep.as_slice());
        let mut k: usize = 0;
        while k < placed.len()
            invariant
                k <= placed@.len(),
                existing_views(final_orders@) == existing_views(plan.keep@) + existing_views(placed@).take(k as int),
            decreases placed@.len() - k,
        {
            let order = placed[k].clone();
            let ghost before = final_orders@;
            final_orders.push(order);
            assert(existing_views(final_orders@) =~= existing_views(before).push(order@));
            assert(existing_views(placed@).take(k + 1) =~= existing_views(placed@).take(k as int).push(order@));
            k = k + 1;
        }
        assert(existing_views(placed@).take(placed@.len() as int) =~= existing_views(placed@));
        let cancelled = clone_existing(plan.cancel.as_slice());
        assert(existing_views(cancelled@) =~= existing_views(plan.cancel@));
        ExecutedPlan { mode: String::from_str("dry_run"), placed, cancelled, final_orders }
    }

    pub fn plan_from_planner_output(&self, planner_output: &PlannerOutput, existing: &[ExistingOrder]) -> (r: ExecutionPlan)
        requires
            intents_ok(planner_output.desired_orders@),
            existing_ok(existing@),
            self.config_view().order_size.wf(),
        ensures
            plan_matches(
                r,
                self.config_view(),
                intent_views(planner_output.desired_orders@),
                existing_views(existing@),
            ),
    {
        self.build_plan(planner_output.desired_orders.as_slice(), existing)
    }
}

/// When the desired orders and the exchange orders have the same keys, the
/// plan places and cancels nothing and keeps one order per key.
pub proof fn lemma_plan_is_quiet_when_keys_match(
    c: AppConfig,
    desired: Seq<OrderIntentView>,
    existing: Seq<ExistingOrderView>,
)
    requires
        forall|k: OrderKeyView| has_key(desired_keyed(c, desired), k) == has_key(existing_keyed(c, existing), k),
    ensures
        entries_without(desired_index(c, desired), existing_index(c, existing)).len() == 0,
        entries_without(existing_index(c, existing), desired_index(c, desired)).len() == 0,
        entries_with(existing_index(c, existing), desired_index(c, desired)).len() == existing_index(
            c,
            existing,
        ).len(),
{
    let di = desired_index(c, desired);
    let ei = existing_index(c, existing);
    assert forall|j: int| 0 <= j < di.len() implies has_key(ei, #[trigger] di[j].0) by {
        let k = di[j].0;
        lemma_key_index_keys::<OrderKey, OrderIntentView>(desired_keyed(c, desired), k);
        lemma_key_index_keys::<OrderKey, ExistingOrderView>(existing_keyed(c, existing), k);
    }
    assert forall|j: int| 0 <= j < ei.len() implies has_key(di, #[trigger] ei[j].0) by {
        let k = ei[j].0;
        lemma_key_index_keys::<OrderKey, OrderIntentView>(desired_keyed(c, desired), k);
        lemma_key_index_keys::<OrderKey, ExistingOrderView>(existing_keyed(c, existing), k);
    }
    lemma_entries_without_empty(di, ei);
    lemma_entries_without_empty(ei, di);
}

/// Index entries are keyed by the key of their own order.
proof fn lemma_indexes_keyed(c: AppConfig, desired: Seq<OrderIntentView>, existing: Seq<ExistingOrderView>)
    ensures
        forall|j: int|
            0 <= j < desired_index(c, desired).len() ==> (#[trigger] desired_index(c, desired)[j]).0
                == order_key_spec(c, desired_index(c, desired)[j].1),
        forall|j: int|
            0 <= j < existing_index(c, existing).len() ==> (#[trigger] existing_index(c, existing)[j]).0
                == order_key_spec(c, existing_index(c, existing)[j].1.intent),
{
    let dk = desired_keyed(c, desired);
    let ek = existing_keyed(c, existing);
    let key_of_intent = |i: OrderIntentView| order_key_spec(c, i);
    let key_of_order = |o: ExistingOrderView| order_key_spec(c, o.intent);
    assert forall|j: int| 0 <= j < dk.len() implies (#[trigger] dk[j]).0 == key_of_intent(dk[j].1) by {}
    assert forall|j: int| 0 <= j < ek.len() implies (#[trigger] ek[j]).0 == key_of_order(ek[j].1) by {}
    lemma_key_index_keyed_by::<OrderKey, OrderIntentView>(dk, key_of_intent);
    lemma_key_index_keyed_by::<OrderKey, ExistingOrderView>(ek, key_of_order);
}

/// Every key the dry run leaves is a desired key.
proof fn lemma_final_key_desired(
    c: AppConfig,
    desired: Seq<OrderIntentView>,
    existing: Seq<ExistingOrderView>,
    plan: ExecutionPlan,
    executed: ExecutedPlan,
    k: OrderKeyView,
)
    requires
        plan_matches(plan, c, desired, existing),
        executed_matches(executed, plan),
        has_key(existing_keyed(c, existing_views(executed.final_orders@)), k),
    ensures
        has_key(desired_keyed(c, desired), k),
{
    let f = existing_views(executed.final_orders@);
    let keep = existing_views(plan.keep@);
    let placed = dry_run_orders(intent_views(plan.place@));
    let di = desired_index(c, desired);
    let ei = existing_index(c, existing);
    let fk = existing_keyed(c, f);
    lemma_indexes_keyed(c, desired, existing);
    lemma_key_index_keys::<OrderKey, OrderIntentView>(desired_keyed(c, desired), k);
    let t = choose|t: int| 0 <= t < fk.len() && fk[t].0 == k;
    if t < keep.len() {
        assert(f[t] == keep[t]);
        lemma_entries_with_members(ei, di);
        assert(keep[t] == entries_with(ei, di)[t]);
        let j = choose|j: int| 0 <= j < ei.len() && ei[j].1 == entries_with(ei, di)[t] && has_key(di, ei[j].0);
        assert(ei[j].0 == k);
    } else {
        let m = t - keep.len();
        assert(f[t] == placed[m]);
        lemma_entries_without_members(di, ei);
        assert(intent_views(plan.place@)[m] == entries_without(di, ei)[m]);
        let j = choose|j: int| 0 <= j < di.len() && di[j].1 == entries_without(di, ei)[m] && !has_key(ei, di[j].0);
        assert(di[j].0 == k);
    }
}

/// Every desired key is a key the dry run leaves.
proof fn lemma_desired_key_final(
    c: AppConfig,
    desired: Seq<OrderIntentView>,
    existing: Seq<ExistingOrderView>,
    plan: ExecutionPlan,
    executed: ExecutedPlan,
    k: OrderKeyView,
)
    requires
        plan_matches(plan, c, desired, existing),
        executed_matches(executed, plan),
        has_key(desired_keyed(c, desired), k),
    ensures
        has_key(existing_keyed(c, existing_views(executed.final_orders@)), k),
{
    let f = existing_views(executed.final_orders@);
    let keep = existing_views(plan.keep@);
    let placed = dry_run_orders(intent_views(plan.place@));
    let di = desired_index(c, desired);
    let ei = existing_index(c, existing);
    let fk = existing_keyed(c, f);
    lemma_indexes_keyed(c, desired, existing);
    lemma_key_index_keys::<OrderKey, OrderIntentView>(desired_keyed(c, desired), k);
    lemma_key_index_keys::<OrderKey, ExistingOrderView>(existing_keyed(c, existing), k);
    let j = choose|j: int| 0 <= j < di.len() && di[j].0 == k;
    if has_key(ei, k) {
        let j2 = choose|j2: int| 0 <= j2 < ei.len() && ei[j2].0 == k;
        assert(has_key(di, ei[j2].0));
        lemma_entries_with_members(ei, di);
        let t = choose|t: int| 0 <= t < entries_with(ei, di).len() && entries_with(ei, di)[t] == ei[j2].1;
        assert(f[t] == keep[t]);
        assert(fk[t].0 == k);
    } else {
        assert(!has_key(ei, di[j].0));
        lemma_entries_without_members(di, ei);
        let m = choose|m: int| 0 <= m < entries_without(di, ei).len() && entries_without(di, ei)[m] == di[j].1;
        let t = keep.len() + m;
        assert(f[t] == placed[m]);
        assert(fk[t].0 == k);
    }
}

/// A dry run leaves the exchange holding exactly the desired keys: planning
/// the same desired orders against the orders it left places and cancels
/// nothing.
pub proof fn lemma_dry_run_reaches_desired(
    c: AppConfig,
    desired: Seq<OrderIntentView>,
    existing: Seq<ExistingOrderView>,
    plan: ExecutionPlan,
    executed: ExecutedPlan,
)
    requires
        plan_matches(plan, c, desired, existing),
        executed_matches(executed, plan),
    ensures
        entries_without(desired_index(c, desired), existing_index(c, existing_views(executed.final_orders@))).len()
            == 0,
        entries_without(existing_index(c, existing_views(executed.final_orders@)), desired_index(c, desired)).len()
            == 0,
{
    let dk = desired_keyed(c, desired);
    let fk = existing_keyed(c, existing_views(executed.final_orders@));
    assert forall|k: OrderKeyView| has_key(fk, k) == has_key(dk, k) by {
        if has_key(fk, k) {
            lemma_final_key_desired(c, desired, existing, plan, executed, k);
        }
        if has_key(dk, k) {
            lemma_desired_key_final(c, desired, existing, plan, executed, k);
        }
    }
    lemma_indexes_match::<OrderKey, OrderIntentView, ExistingOrderView>(dk, fk);
}

} // verus!
