//! Rows of the Backpack API, every field optional as the API leaves them.

use crate::decimal::Dec;
use vstd::prelude::*;

verus! {

fn clone_text(s: &Option<String>) -> (r: Option<String>)
    ensures
        r == *s,
{
    match s {
        Some(t) => Some(t.clone()),
        None => None,
    }
}

#[derive(Debug, PartialEq, Default)]
pub struct BackpackBalanceRow {
    pub asset: Option<String>,
    pub total: Option<Dec>,
    pub balance: Option<Dec>,
    pub available: Option<Dec>,
    pub available_balance: Option<Dec>,
    pub free: Option<Dec>,
}

impl Clone for BackpackBalanceRow {
    fn clone(&self) -> (r: Self)
        ensures
            r == *self,
    {
        BackpackBalanceRow {
            asset: clone_text(&self.asset),
            total: self.total,
            balance: self.balance,
            available: self.available,
            available_balance: self.available_balance,
            free: self.free,
        }
    }
}

#[derive(Debug, PartialEq, Default)]
pub struct BackpackCollateralRow {
    pub symbol: Option<String>,
    pub total_quantity: Option<Dec>,
    pub available_quantity: Option<Dec>,
    pub balance_notional: Option<Dec>,
}

impl Clone for BackpackCollateralRow {
    fn clone(&self) -> (r: Self)
        ensures
            r == *self,
    {
        BackpackCollateralRow {
            symbol: clone_text(&self.symbol),
            total_quantity: self.total_quantity,
            available_quantity: self.available_quantity,
            balance_notional: self.balance_notional,
        }
    }
}

#[derive(Debug, PartialEq, Default)]
pub struct BackpackCollateralSummary {
    pub net_equity: Option<Dec>,
    pub net_equity_available: Option<Dec>,
    pub collateral: Vec<BackpackCollateralRow>,
}

#[derive(Debug, PartialEq, Default)]
pub struct BackpackPositionRow {
    pub symbol: Option<String>,
    pub net_quantity: Option<Dec>,
    pub quantity: Option<Dec>,
    pub position_qty: Option<Dec>,
    pub entry_price: Option<Dec>,
    pub average_entry_price: Option<Dec>,
    pub unrealized_pnl: Option<Dec>,
    pub pnl_unrealized: Option<Dec>,
    pub pnl: Option<Dec>,
}

impl Clone for BackpackPositionRow {
    fn clone(&self) -> (r: Self)
        ensures
            r == *self,
    {
        BackpackPositionRow {
            symbol: clone_text(&self.symbol),
            net_quantity: self.net_quantity,
            quantity: self.quantity,
            position_qty: self.position_qty,
            entry_price: self.entry_price,
            average_entry_price: self.average_entry_price,
            unrealized_pnl: self.unrealized_pnl,
            pnl_unrealized: self.pnl_unrealized,
            pnl: self.pnl,
        }
    }
}

#[derive(Debug, PartialEq, Default)]
pub struct BackpackOrderRow {
    pub order_id: Option<String>,
    pub id: Option<String>,
    pub client_order_id: Option<String>,
    pub client_id: Option<String>,
    pub symbol: Option<String>,
    pub side: Option<String>,
    pub order_type: Option<String>,
    pub status: Option<String>,
    pub price: Option<Dec>,
    pub quantity: Option<Dec>,
    pub qty: Option<Dec>,
    pub executed_quantity: Option<Dec>,
    pub filled_quantity: Option<Dec>,
    pub filled_qty: Option<Dec>,
    pub reduce_only: Option<bool>,
    pub post_only: Option<bool>,
    pub timestamp: Option<i64>,
    pub created_at: Option<i64>,
}

impl Clone for BackpackOrderRow {
    fn clone(&self) -> (r: Self)
        ensures
            r == *self,
    {
        BackpackOrderRow {
            order_id: clone_text(&self.order_id),
            id: clone_text(&self.id),
            client_order_id: clone_text(&self.client_order_id),
            client_id: clone_text(&self.client_id),
            symbol: clone_text(&self.symbol),
            side: clone_text(&self.side),
            order_type: clone_text(&self.order_type),
            status: clone_text(&self.status),
            price: self.price,
            quantity: self.quantity,
            qty: self.qty,
            executed_quantity: self.executed_quantity,
            filled_quantity: self.filled_quantity,
            filled_qty: self.filled_qty,
            reduce_only: self.reduce_only,
            post_only: self.post_only,
            timestamp: self.timestamp,
            created_at: self.created_at,
        }
    }
}

} // verus!
