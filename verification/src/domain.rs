//! Orders, grid levels, positions and risk decisions.

use crate::decimal::Dec;
use vstd::prelude::*;
use vstd::string::StringExecFns;

verus! {

#[derive(Debug, Clone, Copy, PartialEq, Eq, Structural)]
pub enum OrderSide {
    Buy,
    Sell,
}

#[derive(Debug, Clone, Copy, PartialEq, Eq, Structural)]
pub enum OrderType {
    Limit,
    Market,
}

#[derive(Debug, Clone, Copy, PartialEq, Eq, Structural)]
pub enum GridMode {
    Neutral,
    ShortBias,
    ShortOnly,
}

#[derive(Debug, PartialEq)]
pub struct Position {
    pub symbol: String,
    pub size: Dec,
    pub entry_price: Dec,
    pub unrealized_pnl: Dec,
}

impl Clone for Position {
    fn clone(&self) -> (r: Self)
        ensures
            r == *self,
    {
        Position {
            symbol: self.symbol.clone(),
            size: self.size,
            entry_price: self.entry_price,
            unrealized_pnl: self.unrealized_pnl,
        }
    }
}

impl Position {
    /// A flat position: size, entry price and unrealized pnl all zero.
    pub fn flat(symbol: &str) -> (r: Position)
        ensures
            r.symbol@ == symbol@,
            r.size == Dec::zero_spec(),
            r.entry_price == Dec::zero_spec(),
            r.unrealized_pnl == Dec::zero_spec(),
    {
        Position {
            symbol: String::from_str(symbol),
            size: Dec::zero(),
            entry_price: Dec::zero(),
            unrealized_pnl: Dec::zero(),
        }
    }
}

#[derive(Debug, Clone, Copy, PartialEq)]
pub struct GridLevel {
    pub index: usize,
    pub side: OrderSide,
    pub price: Dec,
    pub qty: Dec,
}

/// What an order intent says, with its strings as character sequences.
pub struct OrderIntentView {
    pub client_order_id: Seq<char>,
    pub symbol: Seq<char>,
    pub side: OrderSide,
    pub order_type: OrderType,
    pub price: Dec,
    pub qty: Dec,
    pub reduce_only: bool,
    pub post_only: bool,
}

#[derive(Debug, PartialEq)]
pub struct OrderIntent {
    pub client_order_id: String,
    pub symbol: String,
    pub side: OrderSide,
    pub order_type: OrderType,
    pub price: Dec,
    pub qty: Dec,
    pub reduce_only: bool,
    pub post_only: bool,
}

impl View for OrderIntent {
    type V = OrderIntentView;

    open spec fn view(&self) -> OrderIntentView {
        OrderIntentView {
            client_order_id: self.client_order_id@,
            symbol: self.symbol@,
            side: self.side,
            order_type: self.order_type,
            price: self.price,
            qty: self.qty,
            reduce_only: self.reduce_only,
            post_only: self.post_only,
        }
    }
}

impl Clone for OrderIntent {
    fn clone(&self) -> (r: Self)
        ensures
            r == *self,
    {
        OrderIntent {
            client_order_id: self.client_order_id.clone(),
            symbol: self.symbol.clone(),
            side: self.side,
            order_type: self.order_type,
            price: self.price,
            qty: self.qty,
            reduce_only: self.reduce_only,
            post_only: self.post_only,
        }
    }
}

#[derive(Debug, Clone, Copy, PartialEq, Eq, Structural)]
pub enum RiskReason {
    KillSwitchEnabled,
    QtyMustBePositive,
    ShortOnlyLongFlipBlocked,
    MaxPositionBreached,
}

#[derive(Debug, Clone, Copy, PartialEq, Eq, Structural)]
pub struct RiskDecision {
    pub ok: bool,
    pub reason: Option<RiskReason>,
}

impl RiskDecision {
    pub fn allow() -> (r: RiskDecision)
        ensures
            r == (RiskDecision { ok: true, reason: None }),
    {
        RiskDecision { ok: true, reason: None }
    }

    pub fn reject(reason: RiskReason) -> (r: RiskDecision)
        ensures
            r == (RiskDecision { ok: false, reason: Some(reason) }),
    {
        RiskDecision { ok: false, reason: Some(reason) }
    }
}

#[derive(Debug, PartialEq)]
pub struct PlannerOutput {
    pub active_levels: Vec<GridLevel>,
    pub desired_orders: Vec<OrderIntent>,
    pub rejected_levels: Vec<(GridLevel, RiskReason)>,
    pub projected_position_after_orders: Dec,
}

} // verus!
