//! A flat report of one service cycle, for operators to read.

use crate::decimal::Dec;
use crate::domain::{GridLevel, OrderIntent, OrderIntentView, OrderSide, RiskReason};
use crate::events::{event_views, RuntimeEvent, RuntimeEventView};
use crate::execution::{existing_views, ExistingOrder, ExistingOrderView};
use crate::health::{RuntimeHealth, RuntimeHealthView};
use crate::planner::intent_views;
use crate::reconcile::{fill_view, SyntheticFill, SyntheticFillView};
use crate::service::{reason_name, ServiceCycleOutput};
use vstd::prelude::*;
use vstd::string::StringExecFns;

verus! {

#[derive(Debug, PartialEq)]
pub struct ShadowOrderView {
    pub client_order_id: String,
    pub side: String,
    pub price: Dec,
    pub qty: Dec,
    pub reduce_only: bool,
    pub post_only: bool,
}

/// An order as the report shows it, its side in lower case.
pub struct ShadowOrderSpec {
    pub client_order_id: Seq<char>,
    pub side: Seq<char>,
    pub price: Dec,
    pub qty: Dec,
    pub reduce_only: bool,
    pub post_only: bool,
}

impl View for ShadowOrderView {
    type V = ShadowOrderSpec;

    open spec fn view(&self) -> ShadowOrderSpec {
        ShadowOrderSpec {
            client_order_id: self.client_order_id@,
            side: self.side@,
            price: self.price,
            qty: self.qty,
            reduce_only: self.reduce_only,
            post_only: self.post_only,
        }
    }
}

pub open spec fn shadow_order_spec(i: OrderIntentView) -> ShadowOrderSpec {
    ShadowOrderSpec {
        client_order_id: i.client_order_id,
        side: match i.side {
            OrderSide::Buy => "buy"@,
            OrderSide::Sell => "sell"@,
        },
        price: i.price,
        qty: i.qty,
        reduce_only: i.reduce_only,
        post_only: i.post_only,
    }
}

pub open spec fn shadow_views(s: Seq<ShadowOrderView>) -> Seq<ShadowOrderSpec> {
    s.map_values(|o: ShadowOrderView| o@)
}

pub open spec fn shadow_of_intents(s: Seq<OrderIntentView>) -> Seq<ShadowOrderSpec> {
    s.map_values(|i: OrderIntentView| shadow_order_spec(i))
}

pub open spec fn shadow_of_existing(s: Seq<ExistingOrderView>) -> Seq<ShadowOrderSpec> {
    s.map_values(|o: ExistingOrderView| shadow_order_spec(o.intent))
}

pub open spec fn rejected_text(s: Seq<(GridLevel, RiskReason)>) -> Seq<(GridLevel, Seq<char>)> {
    s.map_values(|p: (GridLevel, RiskReason)| (p.0, reason_name(p.1)))
}

#[derive(Debug, PartialEq)]
pub struct ShadowReport {
    pub symbol: String,
    pub mark_price: Dec,
    pub health: RuntimeHealth,
    pub events: Vec<RuntimeEvent>,
    pub desired_orders: Vec<ShadowOrderView>,
    pub active_levels: Vec<GridLevel>,
    pub place_orders: Vec<ShadowOrderView>,
    pub cancel_orders: Vec<ShadowOrderView>,
    pub keep_orders: Vec<ShadowOrderView>,
    pub missing_on_exchange: Vec<ShadowOrderView>,
    pub unexpected_on_exchange: Vec<ShadowOrderView>,
    pub rejected_levels: Vec<(GridLevel, String)>,
    pub projected_position_after_orders: Dec,
    pub matched: usize,
    pub synthetic_fill: Option<SyntheticFill>,
}

/// The report of a cycle, field by field.
pub open spec fn report_matches(r: ShadowReport, symbol: Seq<char>, cycle: ServiceCycleOutput) -> bool {
    &&& r.symbol@ == symbol
    &&& r.mark_price == match cycle.state.last_mid_price {
        Some(p) => p,
        None => Dec::zero_spec(),
    }
    &&& r.health@ == cycle.state.health@
    &&& event_views(r.events@) == event_views(cycle.events@)
    &&& shadow_views(r.desired_orders@) == shadow_of_intents(intent_views(cycle.planner.desired_orders@))
    &&& r.active_levels@ == cycle.planner.active_levels@
    &&& shadow_views(r.place_orders@) == shadow_of_intents(intent_views(cycle.execution.place@))
    &&& shadow_views(r.cancel_orders@) == shadow_of_existing(existing_views(cycle.execution.cancel@))
    &&& shadow_views(r.keep_orders@) == shadow_of_existing(existing_views(cycle.execution.keep@))
    &&& shadow_views(r.missing_on_exchange@) == shadow_of_intents(
        intent_views(cycle.reconciliation.diff.missing_on_exchange@),
    )
    &&& shadow_views(r.unexpected_on_exchange@) == shadow_of_existing(
        existing_views(cycle.reconciliation.diff.unexpected_on_exchange@),
    )
    &&& r.rejected_levels@.map_values(|p: (GridLevel, String)| (p.0, p.1@)) == rejected_text(
        cycle.planner.rejected_levels@,
    )
    &&& r.projected_position_after_orders == cycle.planner.projected_position_after_orders
    &&& r.matched == cycle.reconciliation.diff.matched
    &&& fill_view(r.synthetic_fill) == fill_view(cycle.reconciliation.synthetic_fill)
}

/// An order as the report shows it.
pub fn order_view_from_intent(intent: &OrderIntent) -> (r: ShadowOrderView)
    ensures
        r@ == shadow_order_spec(intent@),
{
    proof {
        reveal_strlit("buy");
        reveal_strlit("sell");
    }
    ShadowOrderView {
        client_order_id: intent.client_order_id.clone(),
        side: String::from_str(
            match intent.side {
                OrderSide::Buy => "buy",
                OrderSide::Sell => "sell",
            },
        ),
        price: intent.price,
        qty: intent.qty,
        reduce_only: intent.reduce_only,
        post_only: intent.post_only,
    }
}

fn views_of_intents(orders: &Vec<OrderIntent>) -> (r: Vec<ShadowOrderView>)
    ensures
        shadow_views(r@) == shadow_of_intents(intent_views(orders@)),
{
    let mut out: Vec<ShadowOrderView> = Vec::new();
    let mut i: usize = 0;
    while i < orders.len()
        invariant
            i <= orders@.len(),
            shadow_views(out@) == shadow_of_intents(intent_views(orders@)).take(i as int),
        decreases orders@.len() - i,
    {
        let v = order_view_from_intent(&orders[i]);
        let ghost before = out@;
        out.push(v);
        assert(shadow_views(out@) =~= shadow_views(before).push(v@));
        assert(shadow_of_intents(intent_views(orders@)).take(i + 1) =~= shadow_of_intents(intent_views(orders@)).take(
            i as int,
        ).push(v@));
        i = i + 1;
    }
    assert(shadow_of_intents(intent_views(orders@)).take(orders@.len() as int) =~= shadow_of_intents(
        intent_views(orders@),
    ));
    out
}

fn views_of_existing(orders: &Vec<ExistingOrder>) -> (r: Vec<ShadowOrderView>)
    ensures
        shadow_views(r@) == shadow_of_existing(existing_views(orders@)),
{
    let mut out: Vec<ShadowOrderView> = Vec::new();
    let mut i: usize = 0;
    while i < orders.len()
        invariant
            i <= orders@.len(),
            shadow_views(out@) == shadow_of_existing(existing_views(orders@)).take(i as int),
        decreases orders@.len() - i,
    {
        let v = order_view_from_intent(&orders[i].intent);
        let ghost before = out@;
        out.push(v);
        assert(shadow_views(out@) =~= shadow_views(before).push(v@));
        assert(shadow_of_existing(existing_views(orders@)).take(i + 1) =~= shadow_of_existing(
            existing_views(orders@),
        ).take(i as int).push(v@));
        i = i + 1;
    }
    assert(shadow_of_existing(existing_views(orders@)).take(orders@.len() as int) =~= shadow_of_existing(
        existing_views(orders@),
    ));
    out
}

fn reason_text(r: RiskReason) -> (s: String)
    ensures
        s@ == reason_name(r),
{
    proof {
        reveal_strlit("KillSwitchEnabled");
        reveal_strlit("QtyMustBePositive");
        reveal_strlit("ShortOnlyLongFlipBlocked");
        reveal_strlit("MaxPositionBreached");
    }
    String::from_str(
        match r {
            RiskReason::KillSwitchEnabled => "KillSwitchEnabled",
            RiskReason::QtyMustBePositive => "QtyMustBePositive",
            RiskReason::ShortOnlyLongFlipBlocked => "ShortOnlyLongFlipBlocked",
            RiskReason::MaxPositionBreached => "MaxPositionBreached",
        },
    )
}

impl ShadowReport {
    /// The report of a cycle for `symbol`: the state's mark price (zero when
    /// none), health and events, every order list of the plan, its execution
    /// and its reconciliation, and the rejected levels with their reasons.
    pub fn from_cycle(symbol: &str, cycle: &ServiceCycleOutput) -> (r: ShadowReport)
        ensures
            report_matches(r, symbol@, *cycle),
    {
        let mut rejected_levels: Vec<(GridLevel, String)> = Vec::new();
        let ghost src = cycle.planner.rejected_levels@;
        let mut i: usize = 0;
        while i < cycle.planner.rejected_levels.len()
            invariant
                i <= src.len(),
                src == cycle.planner.rejected_levels@,
                rejected_levels@.map_values(|p: (GridLevel, String)| (p.0, p.1@)) == rejected_text(src).take(i as int),
            decreases src.len() - i,
        {
            let (level, reason) = cycle.planner.rejected_levels[i];
            let text = reason_text(reason);
            let ghost before = rejected_levels@;
            let ghost entry = (level, text@);
            rejected_levels.push((level, text));
            assert(rejected_levels@.map_values(|p: (GridLevel, String)| (p.0, p.1@)) =~= before.map_values(
                |p: (GridLevel, String)| (p.0, p.1@),
            ).push(entry));
            assert(rejected_text(src).take(i + 1) =~= rejected_text(src).take(i as int).push(entry));
            i = i + 1;
        }
        assert(rejected_text(src).take(src.len() as int) =~= rejected_text(src));
        let mut events: Vec<RuntimeEvent> = Vec::new();
        let mut k: usize = 0;
        while k < cycle.events.len()
            invariant
                k <= cycle.events@.len(),
                events@ == cycle.events@.take(k as int),
            decreases cycle.events@.len() - k,
        {
            events.push(cycle.events[k].clone());
            assert(cycle.events@.take(k + 1) =~= cycle.events@.take(k as int).push(cycle.events@[k as int]));
            k = k + 1;
        }
        assert(cycle.events@.take(cycle.events@.len() as int) =~= cycle.events@);
        let mut active_levels: Vec<GridLevel> = Vec::new();
        let mut j: usize = 0;
        while j < cycle.planner.active_levels.len()
            invariant
                j <= cycle.planner.active_levels@.len(),
                active_levels@ == cycle.planner.active_levels@.take(j as int),
            decreases cycle.planner.active_levels@.len() - j,
        {
            active_levels.push(cycle.planner.active_levels[j]);
            assert(cycle.planner.active_levels@.take(j + 1) =~= cycle.planner.active_levels@.take(j as int).push(
                cycle.planner.active_levels@[j as int],
            ));
            j = j + 1;
        }
        assert(cycle.planner.active_levels@.take(cycle.planner.active_levels@.len() as int)
            =~= cycle.planner.active_levels@);
        ShadowReport {
            symbol: String::from_str(symbol),
            mark_price: match cycle.state.last_mid_price {
                Some(p) => p,
                None => Dec::zero(),
            },
            health: cycle.state.health.clone(),
            events,
            desired_orders: views_of_intents(&cycle.planner.desired_orders),
            active_levels,
            place_orders: views_of_intents(&cycle.execution.place),
            cancel_orders: views_of_existing(&cycle.execution.cancel),
            keep_orders: views_of_existing(&cycle.execution.keep),
            missing_on_exchange: views_of_intents(&cycle.reconciliation.diff.missing_on_exchange),
            unexpected_on_exchange: views_of_existing(&cycle.reconciliation.diff.unexpected_on_exchange),
            rejected_levels,
            projected_position_after_orders: cycle.planner.projected_position_after_orders,
            matched: cycle.reconciliation.diff.matched,
            synthetic_fill: match &cycle.reconciliation.synthetic_fill {
                Some(f) => Some(f.clone()),
                None => None,
            },
        }
    }
}

} // verus!
