//! The order-sync bot's own records: desired and open orders, and the
//! report of each cycle.

pub use crate::domain::{GridMode, Position};

use crate::decimal::Dec;
use vstd::prelude::*;

verus! {

#[derive(Debug, Clone, Copy, PartialEq, Eq, Structural)]
pub enum Side {
    Buy,
    Sell,
}

#[derive(Debug, PartialEq)]
pub struct DesiredOrder {
    pub client_order_id: String,
    pub symbol: String,
    pub side: Side,
    pub price: Dec,
    pub qty: Dec,
    pub reduce_only: bool,
    pub post_only: bool,
}

pub struct DesiredOrderView {
    pub client_order_id: Seq<char>,
    pub symbol: Seq<char>,
    pub side: Side,
    pub price: Dec,
    pub qty: Dec,
    pub reduce_only: bool,
    pub post_only: bool,
}

impl View for DesiredOrder {
    type V = DesiredOrderView;

    open spec fn view(&self) -> DesiredOrderView {
        DesiredOrderView {
            client_order_id: self.client_order_id@,
            symbol: self.symbol@,
            side: self.side,
            price: self.price,
            qty: self.qty,
            reduce_only: self.reduce_only,
            post_only: self.post_only,
        }
    }
}

impl Clone for DesiredOrder {
    fn clone(&self) -> (r: Self)
        ensures
            r == *self,
    {
        DesiredOrder {
            client_order_id: self.client_order_id.clone(),
            symbol: self.symbol.clone(),
            side: self.side,
            price: self.price,
            qty: self.qty,
            reduce_only: self.reduce_only,
            post_only: self.post_only,
        }
    }
}

pub open spec fn desired_views(s: Seq<DesiredOrder>) -> Seq<DesiredOrderView> {
    s.map_values(|o: DesiredOrder| o@)
}

#[derive(Debug, PartialEq)]
pub struct OpenOrder {
    pub order_id: String,
    pub client_order_id: String,
    pub symbol: String,
    pub side: Side,
    pub price: Dec,
    pub qty: Dec,
    pub reduce_only: bool,
    pub post_only: bool,
    pub status: String,
}

pub struct OpenOrderView {
    pub order_id: Seq<char>,
    pub client_order_id: Seq<char>,
    pub symbol: Seq<char>,
    pub side: Side,
    pub price: Dec,
    pub qty: Dec,
    pub reduce_only: bool,
    pub post_only: bool,
    pub status: Seq<char>,
}

impl View for OpenOrder {
    type V = OpenOrderView;

    open spec fn view(&self) -> OpenOrderView {
        OpenOrderView {
            order_id: self.order_id@,
            client_order_id: self.client_order_id@,
            symbol: self.symbol@,
            side: self.side,
            price: self.price,
            qty: self.qty,
            reduce_only: self.reduce_only,
            post_only: self.post_only,
            status: self.status@,
        }
    }
}

impl Clone for OpenOrder {
    fn clone(&self) -> (r: Self)
        ensures
            r == *self,
    {
        OpenOrder {
            order_id: self.order_id.clone(),
            client_order_id: self.client_order_id.clone(),
            symbol: self.symbol.clone(),
            side: self.side,
            price: self.price,
            qty: self.qty,
            reduce_only: self.reduce_only,
            post_only: self.post_only,
            status: self.status.clone(),
        }
    }
}

pub open spec fn open_views(s: Seq<OpenOrder>) -> Seq<OpenOrderView> {
    s.map_values(|o: OpenOrder| o@)
}

#[derive(Debug, PartialEq)]
pub struct CycleReport {
    pub ts: String,
    pub symbol: String,
    pub mode: String,
    pub mark_price: Dec,
    pub position_size: Dec,
    pub entry_price: Dec,
    pub desired_orders: usize,
    pub existing_orders: usize,
    pub place_orders: usize,
    pub cancel_orders: usize,
    pub matched_orders: usize,
    pub paused: bool,
    pub pause_reason: Option<String>,
    pub issues: Vec<String>,
}

#[derive(Debug, PartialEq)]
pub struct StateFile {
    pub last_report: CycleReport,
}

} // verus!
