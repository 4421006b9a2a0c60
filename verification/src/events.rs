//! Events the service records about each cycle.

use crate::decimal::Dec;
use crate::domain::{GridLevel, OrderIntent, OrderIntentView};
use crate::health::ServiceState;
use crate::reconcile::{SyntheticFill, SyntheticFillView};
use vstd::prelude::*;
use vstd::string::StringExecFns;

verus! {

#[derive(Debug, Clone, Copy, PartialEq, Eq, Structural)]
pub enum RuntimeEventKind {
    ServiceStateChanged,
    GridPaused,
    OrderPlanned,
    OrderCancelled,
    OrderRetained,
    PlannerRejectedLevel,
    SyntheticFillInferred,
    ReconciliationMismatch,
}

#[derive(Debug, PartialEq)]
pub struct RuntimeEvent {
    pub kind: RuntimeEventKind,
    pub message: String,
    pub order: Option<OrderIntent>,
    pub level: Option<GridLevel>,
    pub fill: Option<SyntheticFill>,
    pub service_state: Option<ServiceState>,
    pub matched_orders: Option<usize>,
    pub mark_price: Option<Dec>,
}

pub struct RuntimeEventView {
    pub kind: RuntimeEventKind,
    pub message: Seq<char>,
    pub order: Option<OrderIntentView>,
    pub level: Option<GridLevel>,
    pub fill: Option<SyntheticFillView>,
    pub service_state: Option<ServiceState>,
    pub matched_orders: Option<usize>,
    pub mark_price: Option<Dec>,
}

impl View for RuntimeEvent {
    type V = RuntimeEventView;

    open spec fn view(&self) -> RuntimeEventView {
        RuntimeEventView {
            kind: self.kind,
            message: self.message@,
            order: match self.order {
                Some(o) => Some(o@),
                None => None,
            },
            level: self.level,
            fill: match self.fill {
                Some(f) => Some(f@),
                None => None,
            },
            service_state: self.service_state,
            matched_orders: self.matched_orders,
            mark_price: self.mark_price,
        }
    }
}

pub open spec fn event_views(s: Seq<RuntimeEvent>) -> Seq<RuntimeEventView> {
    s.map_values(|e: RuntimeEvent| e@)
}

/// An event with only a kind, a message and a mark price set.
pub open spec fn bare_event(kind: RuntimeEventKind, message: Seq<char>, mark_price: Option<Dec>) -> RuntimeEventView {
    RuntimeEventView {
        kind,
        message,
        order: None,
        level: None,
        fill: None,
        service_state: None,
        matched_orders: None,
        mark_price,
    }
}

impl Clone for RuntimeEvent {
    fn clone(&self) -> (r: Self)
        ensures
            r == *self,
    {
        RuntimeEvent {
            kind: self.kind,
            message: self.message.clone(),
            order: match &self.order {
                Some(o) => Some(o.clone()),
                None => None,
            },
            level: self.level,
            fill: match &self.fill {
                Some(f) => Some(f.clone()),
                None => None,
            },
            service_state: self.service_state,
            matched_orders: self.matched_orders,
            mark_price: self.mark_price,
        }
    }
}

impl RuntimeEvent {
    pub fn service_state_changed(service_state: ServiceState, message: &str) -> (r: RuntimeEvent)
        ensures
            r@ == (RuntimeEventView {
                service_state: Some(service_state),
                ..bare_event(RuntimeEventKind::ServiceStateChanged, message@, None)
            }),
    {
        RuntimeEvent {
            kind: RuntimeEventKind::ServiceStateChanged,
            message: String::from_str(message),
            order: None,
            level: None,
            fill: None,
            service_state: Some(service_state),
            matched_orders: None,
            mark_price: None,
        }
    }

    /// The event of a pause, carrying the state it left the service in.
    pub fn paused(service_state: ServiceState, message: &str, mark_price: Option<Dec>) -> (r: RuntimeEvent)
        ensures
            r@ == (RuntimeEventView {
                service_state: Some(service_state),
                ..bare_event(RuntimeEventKind::GridPaused, message@, mark_price)
            }),
    {
        RuntimeEvent {
            kind: RuntimeEventKind::GridPaused,
            message: String::from_str(message),
            order: None,
            level: None,
            fill: None,
            service_state: Some(service_state),
            matched_orders: None,
            mark_price,
        }
    }

    pub fn order_planned(kind: RuntimeEventKind, order: OrderIntent, mark_price: Option<Dec>, message: &str) -> (r:
        RuntimeEvent)
        ensures
            r@ == (RuntimeEventView { order: Some(order@), ..bare_event(kind, message@, mark_price) }),
    {
        RuntimeEvent {
            kind,
            message: String::from_str(message),
            order: Some(order),
            level: None,
            fill: None,
            service_state: None,
            matched_orders: None,
            mark_price,
        }
    }

    pub fn planner_rejected(level: GridLevel, message: &str, mark_price: Option<Dec>) -> (r: RuntimeEvent)
        ensures
            r@ == (RuntimeEventView {
                level: Some(level),
                ..bare_event(RuntimeEventKind::PlannerRejectedLevel, message@, mark_price)
            }),
    {
        RuntimeEvent {
            kind: RuntimeEventKind::PlannerRejectedLevel,
            message: String::from_str(message),
            order: None,
            level: Some(level),
            fill: None,
            service_state: None,
            matched_orders: None,
            mark_price,
        }
    }

    pub fn synthetic_fill(fill: SyntheticFill, mark_price: Option<Dec>) -> (r: RuntimeEvent)
        ensures
            r@ == (RuntimeEventView {
                fill: Some(fill@),
                ..bare_event(
                    RuntimeEventKind::SyntheticFillInferred,
                    "synthetic fill inferred during reconciliation"@,
                    mark_price,
                )
            }),
    {
        RuntimeEvent {
            kind: RuntimeEventKind::SyntheticFillInferred,
            message: String::from_str("synthetic fill inferred during reconciliation"),
            order: None,
            level: None,
            fill: Some(fill),
            service_state: None,
            matched_orders: None,
            mark_price,
        }
    }

    pub fn mismatch(matched_orders: usize, mark_price: Option<Dec>) -> (r: RuntimeEvent)
        ensures
            r@ == (RuntimeEventView {
                matched_orders: Some(matched_orders),
                ..bare_event(
                    RuntimeEventKind::ReconciliationMismatch,
                    "desired orders and exchange state diverged"@,
                    mark_price,
                )
            }),
    {
        RuntimeEvent {
            kind: RuntimeEventKind::ReconciliationMismatch,
            message: String::from_str("desired orders and exchange state diverged"),
            order: None,
            level: None,
            fill: None,
            service_state: None,
            matched_orders: Some(matched_orders),
            mark_price,
        }
    }
}

} // verus!
