//! The runtime state kept between cycles, in memory.

use crate::decimal::Dec;
use crate::domain::Position;
use crate::events::{event_views, RuntimeEvent, RuntimeEventView};
use crate::execution::{existing_views, ExistingOrder, ExistingOrderView};
use crate::health::{fresh_health, RuntimeHealth, RuntimeHealthView};
use crate::reconcile::{SyntheticFill, SyntheticFillView};
use vstd::prelude::*;

verus! {

#[derive(Debug, PartialEq)]
pub struct RuntimeState {
    pub working_orders: Vec<ExistingOrder>,
    pub recent_fills: Vec<SyntheticFill>,
    pub recent_events: Vec<RuntimeEvent>,
    pub position: Option<Position>,
    pub last_mid_price: Option<Dec>,
    pub health: RuntimeHealth,
}

pub struct RuntimeStateView {
    pub working_orders: Seq<ExistingOrderView>,
    pub recent_fills: Seq<SyntheticFillView>,
    pub recent_events: Seq<RuntimeEventView>,
    pub position: Option<Position>,
    pub last_mid_price: Option<Dec>,
    pub health: RuntimeHealthView,
}

pub open spec fn fill_views(s: Seq<SyntheticFill>) -> Seq<SyntheticFillView> {
    s.map_values(|f: SyntheticFill| f@)
}

impl View for RuntimeState {
    type V = RuntimeStateView;

    open spec fn view(&self) -> RuntimeStateView {
        RuntimeStateView {
            working_orders: existing_views(self.working_orders@),
            recent_fills: fill_views(self.recent_fills@),
            recent_events: event_views(self.recent_events@),
            position: self.position,
            last_mid_price: self.last_mid_price,
            health: self.health@,
        }
    }
}

/// The state before any cycle: nothing recorded, fresh health.
pub open spec fn empty_state(s: RuntimeStateView) -> bool {
    &&& s.working_orders.len() == 0
    &&& s.recent_fills.len() == 0
    &&& s.recent_events.len() == 0
    &&& s.position is None
    &&& s.last_mid_price is None
    &&& fresh_health(s.health)
}

/// `x` put in front of `s`, keeping at most `limit` items (at least one).
pub open spec fn newest_first<T>(s: Seq<T>, x: T, limit: usize) -> Seq<T> {
    let keep: int = if limit == 0 {
        1
    } else {
        limit as int
    };
    let all = seq![x] + s;
    if keep < all.len() {
        all.take(keep)
    } else {
        all
    }
}

/// Recording an item keeps at most `limit` items (at least one), the new one
/// first and the earlier ones after it in their order.
pub proof fn lemma_newest_first<T>(s: Seq<T>, x: T, limit: usize)
    ensures
        1 <= newest_first(s, x, limit).len() <= (if limit == 0 {
            1
        } else {
            limit as int
        }),
        newest_first(s, x, limit).len() <= s.len() + 1,
        newest_first(s, x, limit)[0] == x,
        forall|k: int| 1 <= k < newest_first(s, x, limit).len() ==> #[trigger] newest_first(s, x, limit)[k] == s[k - 1],
{
    let all = seq![x] + s;
    assert(all[0] == x);
    assert forall|k: int| 1 <= k < all.len() implies #[trigger] all[k] == s[k - 1] by {}
}

fn clone_orders(v: &Vec<ExistingOrder>) -> (r: Vec<ExistingOrder>)
    ensures
        r@ == v@,
{
    let r = v.clone();
    assert(r@ =~= v@);
    r
}

fn clone_fills(v: &Vec<SyntheticFill>) -> (r: Vec<SyntheticFill>)
    ensures
        r@ == v@,
{
    let r = v.clone();
    assert(r@ =~= v@);
    r
}

fn clone_events(v: &Vec<RuntimeEvent>) -> (r: Vec<RuntimeEvent>)
    ensures
        r@ == v@,
{
    let r = v.clone();
    assert(r@ =~= v@);
    r
}

impl Clone for RuntimeState {
    fn clone(&self) -> (r: Self)
        ensures
            r@ == self@,
    {
        RuntimeState {
            working_orders: clone_orders(&self.working_orders),
            recent_fills: clone_fills(&self.recent_fills),
            recent_events: clone_events(&self.recent_events),
            position: match &self.position {
                Some(p) => Some(p.clone()),
                None => None,
            },
            last_mid_price: self.last_mid_price,
            health: self.health.clone(),
        }
    }
}

impl Default for RuntimeState {
    fn default() -> (r: Self)
        ensures
            empty_state(r@),
    {
        RuntimeState {
            working_orders: Vec::new(),
            recent_fills: Vec::new(),
            recent_events: Vec::new(),
            position: None,
            last_mid_price: None,
            health: RuntimeHealth::default(),
        }
    }
}

/// Keeps the runtime state; reads hand out copies.
#[derive(Debug)]
pub struct InMemoryStateStore {
    state: RuntimeState,
}

impl View for InMemoryStateStore {
    type V = RuntimeStateView;

    closed spec fn view(&self) -> RuntimeStateView {
        self.state@
    }
}

impl Clone for InMemoryStateStore {
    fn clone(&self) -> (r: Self)
        ensures
            r@ == self@,
    {
        InMemoryStateStore { state: self.state.clone() }
    }
}

impl Default for InMemoryStateStore {
    fn default() -> (r: Self)
        ensures
            empty_state(r@),
    {
        InMemoryStateStore { state: RuntimeState::default() }
    }
}

impl InMemoryStateStore {
    pub fn new() -> (r: Self)
        ensures
            empty_state(r@),
    {
        Self::default()
    }

    /// A copy of the state.
    pub fn get(&self) -> (r: RuntimeState)
        ensures
            r@ == self@,
    {
        self.state.clone()
    }

    pub fn restore(&mut self, state: RuntimeState)
        ensures
            final(self)@ == state@,
    {
        self.state = state;
    }

    pub fn set_working_orders(&mut self, orders: Vec<ExistingOrder>)
        ensures
            final(self)@ == (RuntimeStateView { working_orders: existing_views(orders@), ..old(self)@ }),
    {
        self.state.working_orders = orders;
    }

    pub fn set_position(&mut self, position: Position)
        ensures
            final(self)@ == (RuntimeStateView { position: Some(position), ..old(self)@ }),
    {
        self.state.position = Some(position);
    }

    pub fn set_last_mid_price(&mut self, mid_price: Dec)
        ensures
            final(self)@ == (RuntimeStateView { last_mid_price: Some(mid_price), ..old(self)@ }),
    {
        self.state.last_mid_price = Some(mid_price);
    }

    /// Records a fill as the newest, keeping at most `limit` (at least one).
    pub fn push_fill(&mut self, fill: SyntheticFill, limit: usize)
        ensures
            final(self)@ == (RuntimeStateView {
                recent_fills: newest_first(old(self)@.recent_fills, fill@, limit),
                ..old(self)@
            }),
    {
        let limit = if limit < 1 {
            1
        } else {
            limit
        };
        let ghost entry = fill@;
        self.state.recent_fills.insert(0, fill);
        self.state.recent_fills.truncate(limit);
        assert(fill_views(self.state.recent_fills@) =~= newest_first(old(self)@.recent_fills, entry, limit));
    }

    /// Records an event as the newest, keeping at most `limit` (at least one).
    pub fn push_event(&mut self, event: RuntimeEvent, limit: usize)
        ensures
            final(self)@ == (RuntimeStateView {
                recent_events: newest_first(old(self)@.recent_events, event@, limit),
                ..old(self)@
            }),
    {
        let limit = if limit < 1 {
            1
        } else {
            limit
        };
        let ghost entry = event@;
        self.state.recent_events.insert(0, event);
        self.state.recent_events.truncate(limit);
        assert(event_views(self.state.recent_events@) =~= newest_first(old(self)@.recent_events, entry, limit));
    }

    pub fn set_health(&mut self, health: RuntimeHealth)
        ensures
            final(self)@ == (RuntimeStateView { health: health@, ..old(self)@ }),
    {
        self.state.health = health;
    }
}

} // verus!
