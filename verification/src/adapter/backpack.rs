//! How Backpack rows become the library's orders, positions and collateral
//! figures.

use super::dto::{BackpackCollateralRow, BackpackCollateralSummary, BackpackOrderRow, BackpackPositionRow};
use crate::decimal::Dec;
use crate::domain::{OrderIntent, OrderSide, OrderType, Position};
use crate::reconcile::opt_text;
use crate::text::{lower_text, text_equals, text_equals_ignore_ascii_case};
use vstd::prelude::*;
use vstd::string::StringExecFns;

verus! {

/// Errors of the Backpack adapter.
#[derive(Debug, Clone, Copy, PartialEq, Eq)]
pub enum BackpackAdapterError {
    InvalidPayload(&'static str),
}

impl BackpackAdapterError {
    /// The error's message.
    pub fn message(&self) -> (r: String)
        ensures
            match self {
                BackpackAdapterError::InvalidPayload(what) => r@ == "invalid json payload shape for "@ + what@,
            },
    {
        match self {
            BackpackAdapterError::InvalidPayload(what) => {
                let mut s = String::from_str("invalid json payload shape for ");
                s.append(what);
                s
            },
        }
    }
}

pub open spec fn side_spec(raw: Seq<char>) -> OrderSide {
    if lower_text(raw) == "ask"@ || lower_text(raw) == "sell"@ {
        OrderSide::Sell
    } else {
        OrderSide::Buy
    }
}

pub open spec fn order_type_spec(raw: Option<Seq<char>>) -> OrderType {
    let text = match raw {
        Some(t) => t,
        None => "limit"@,
    };
    if lower_text(text) == "market"@ {
        OrderType::Market
    } else {
        OrderType::Limit
    }
}

pub open spec fn open_status_spec(raw: Option<Seq<char>>) -> bool {
    let text = match raw {
        Some(t) => t,
        None => "open"@,
    };
    text == "Accepted"@ || text == "New"@ || text == "Open"@ || text == "accepted"@ || text == "new"@ || text == "open"@
}

pub open spec fn first_some<T>(a: Option<T>, b: Option<T>) -> Option<T> {
    match a {
        Some(x) => Some(x),
        None => b,
    }
}

pub open spec fn or_zero(a: Option<Dec>) -> Dec {
    match a {
        Some(x) => x,
        None => Dec::zero_spec(),
    }
}

/// The order a row describes, each field taken from the row, else from the
/// fallback intent, else a default; none without a symbol from either.
pub open spec fn normalized_order_spec(row: BackpackOrderRow, fallback: Option<crate::domain::OrderIntentView>) -> Option<
    crate::domain::OrderIntentView,
> {
    let symbol = match opt_text(row.symbol) {
        Some(t) => Some(t),
        None => match fallback {
            Some(f) => Some(f.symbol),
            None => None,
        },
    };
    match symbol {
        None => None,
        Some(symbol) => Some(
            crate::domain::OrderIntentView {
                client_order_id: match first_some(opt_text(row.client_order_id), opt_text(row.client_id)) {
                    Some(t) => t,
                    None => match fallback {
                        Some(f) => f.client_order_id,
                        None => Seq::empty(),
                    },
                },
                symbol,
                side: match opt_text(row.side) {
                    Some(t) => side_spec(t),
                    None => match fallback {
                        Some(f) => f.side,
                        None => OrderSide::Buy,
                    },
                },
                order_type: match opt_text(row.order_type) {
                    Some(t) => order_type_spec(Some(t)),
                    None => match fallback {
                        Some(f) => f.order_type,
                        None => OrderType::Limit,
                    },
                },
                price: match row.price {
                    Some(p) => p,
                    None => match fallback {
                        Some(f) => f.price,
                        None => Dec::zero_spec(),
                    },
                },
                qty: match first_some(row.quantity, row.qty) {
                    Some(q) => q,
                    None => match fallback {
                        Some(f) => f.qty,
                        None => Dec::zero_spec(),
                    },
                },
                reduce_only: match row.reduce_only {
                    Some(b) => b,
                    None => match fallback {
                        Some(f) => f.reduce_only,
                        None => false,
                    },
                },
                post_only: match row.post_only {
                    Some(b) => b,
                    None => match fallback {
                        Some(f) => f.post_only,
                        None => false,
                    },
                },
            },
        ),
    }
}

/// The row for `symbol`, else the first row.
pub open spec fn position_row_spec(rows: Seq<BackpackPositionRow>, symbol: Seq<char>) -> Option<BackpackPositionRow> {
    if exists|k: int| 0 <= k < rows.len() && opt_text(rows[k].symbol) == Some(symbol) {
        let k = choose|k: int|
            0 <= k < rows.len() && opt_text(rows[k].symbol) == Some(symbol) && forall|j: int|
                0 <= j < k ==> opt_text(rows[j].symbol) != Some(symbol);
        Some(rows[k])
    } else if rows.len() > 0 {
        Some(rows[0])
    } else {
        None
    }
}

/// The first collateral row for `asset`.
pub open spec fn collateral_row_spec(rows: Seq<BackpackCollateralRow>, asset: Seq<char>) -> Option<BackpackCollateralRow>
    decreases rows.len(),
{
    if rows.len() == 0 {
        None
    } else if opt_text(rows[0].symbol) == Some(asset) {
        Some(rows[0])
    } else {
        collateral_row_spec(rows.drop_first(), asset)
    }
}

/// Net equity and its available part when either is positive; otherwise the
/// asset's collateral row, its total and available quantity falling back to
/// the notional balance (and the available one to the total).
pub open spec fn collateral_spec(summary: BackpackCollateralSummary, asset: Seq<char>) -> Option<(Dec, Dec)> {
    if summary.net_equity matches Some(total) && summary.net_equity_available matches Some(available) && (total@
        > 0 || available@ > 0) {
        Some((summary.net_equity.unwrap(), summary.net_equity_available.unwrap()))
    } else {
        match collateral_row_spec(summary.collateral@, asset) {
            Some(row) => {
                let total = or_zero(first_some(row.total_quantity, row.balance_notional));
                let available = match first_some(row.available_quantity, row.balance_notional) {
                    Some(a) => a,
                    None => total,
                };
                Some((total, available))
            },
            None => None,
        }
    }
}

/// The filter that keeps the rows whose status is open.
pub open spec fn open_rows_spec(rows: Seq<BackpackOrderRow>) -> Seq<BackpackOrderRow>
    decreases rows.len(),
{
    if rows.len() == 0 {
        Seq::empty()
    } else {
        let rest = open_rows_spec(rows.drop_last());
        if open_status_spec(opt_text(rows.last().status)) {
            rest.push(rows.last())
        } else {
            rest
        }
    }
}

fn clone_text(s: &Option<String>) -> (r: Option<String>)
    ensures
        r == *s,
{
    match s {
        Some(t) => Some(t.clone()),
        None => None,
    }
}

/// Normalizes Backpack's rows.
pub struct BackpackNormalize;

impl BackpackNormalize {
    /// `Ask` or `Sell` (in any case) is a sell; anything else a buy.
    pub fn map_side(raw: &str) -> (r: OrderSide)
        ensures
            r == side_spec(raw@),
    {
        proof {
            reveal_strlit("ask");
            reveal_strlit("sell");
            assert(lower_text("ask"@) =~= "ask"@);
            assert(lower_text("sell"@) =~= "sell"@);
        }
        if text_equals_ignore_ascii_case(raw, "ask") || text_equals_ignore_ascii_case(raw, "sell") {
            OrderSide::Sell
        } else {
            OrderSide::Buy
        }
    }

    /// `market` (in any case) is a market order; anything else, and no
    /// type at all, a limit order.
    pub fn map_order_type(raw: Option<&str>) -> (r: OrderType)
        ensures
            r == order_type_spec(
                match raw {
                    Some(t) => Some(t@),
                    None => None,
                },
            ),
    {
        proof {
            reveal_strlit("market");
            reveal_strlit("limit");
            assert(lower_text("market"@) =~= "market"@);
        }
        let text = match raw {
            Some(t) => t,
            None => "limit",
        };
        if text_equals_ignore_ascii_case(text, "market") {
            OrderType::Market
        } else {
            OrderType::Limit
        }
    }

    /// Accepted, new or open, capitalized or in lower case; no status counts as open.
    pub fn is_open_status(raw: Option<&str>) -> (r: bool)
        ensures
            r == open_status_spec(
                match raw {
                    Some(t) => Some(t@),
                    None => None,
                },
            ),
    {
        let text = match raw {
            Some(t) => t,
            None => "open",
        };
        text_equals(text, "Accepted") || text_equals(text, "New") || text_equals(text, "Open") || text_equals(
            text,
            "accepted",
        ) || text_equals(text, "new") || text_equals(text, "open")
    }

    /// The position row for `symbol`, else the first row.
    pub fn normalize_position_payload(rows: &[BackpackPositionRow], symbol: &str) -> (r: Option<BackpackPositionRow>)
        ensures
            r == position_row_spec(rows@, symbol@),
    {
        let mut i: usize = 0;
        while i < rows.len()
            invariant
                i <= rows@.len(),
                forall|j: int| 0 <= j < i ==> opt_text(rows@[j].symbol) != Some(symbol@),
            decreases rows@.len() - i,
        {
            let matches = match &rows[i].symbol {
                Some(s) => text_equals(s.as_str(), symbol),
                None => false,
            };
            if matches {
                proof {
                    let k = choose|k: int|
                        0 <= k < rows@.len() && opt_text(rows@[k].symbol) == Some(symbol@) && forall|j: int|
                            0 <= j < k ==> opt_text(rows@[j].symbol) != Some(symbol@);
                    if k < i {
                    } else if k > i {
                        assert(opt_text(rows@[i as int].symbol) == Some(symbol@));
                    }
                }
                return Some(rows[i].clone());
            }
            i = i + 1;
        }
        if rows.len() > 0 {
            Some(rows[0].clone())
        } else {
            None
        }
    }

    /// The position the rows give for `symbol`: size, entry price and
    /// unrealized pnl from the first field present, zero otherwise; a flat
    /// position without rows.
    pub fn normalize_position(rows: &[BackpackPositionRow], symbol: &str) -> (r: Position)
        ensures
            r.symbol@ == symbol@,
            match position_row_spec(rows@, symbol@) {
                Some(row) => {
                    &&& r.size == or_zero(first_some(first_some(row.net_quantity, row.quantity), row.position_qty))
                    &&& r.entry_price == or_zero(first_some(row.entry_price, row.average_entry_price))
                    &&& r.unrealized_pnl == or_zero(
                        first_some(first_some(row.unrealized_pnl, row.pnl_unrealized), row.pnl),
                    )
                },
                None => {
                    &&& r.size == Dec::zero_spec()
                    &&& r.entry_price == Dec::zero_spec()
                    &&& r.unrealized_pnl == Dec::zero_spec()
                },
            },
    {
        let row = match Self::normalize_position_payload(rows, symbol) {
            Some(row) => row,
            None => return Position::flat(symbol),
        };
        let size = match row.net_quantity {
            Some(v) => v,
            None => match row.quantity {
                Some(v) => v,
                None => match row.position_qty {
                    Some(v) => v,
                    None => Dec::zero(),
                },
            },
        };
        let entry_price = match row.entry_price {
            Some(v) => v,
            None => match row.average_entry_price {
                Some(v) => v,
                None => Dec::zero(),
            },
        };
        let unrealized_pnl = match row.unrealized_pnl {
            Some(v) => v,
            None => match row.pnl_unrealized {
                Some(v) => v,
                None => match row.pnl {
                    Some(v) => v,
                    None => Dec::zero(),
                },
            },
        };
        Position { symbol: String::from_str(symbol), size, entry_price, unrealized_pnl }
    }

    /// The order a row describes, completed from the fallback intent.
    pub fn normalize_order(row: &BackpackOrderRow, fallback: Option<&OrderIntent>) -> (r: Option<OrderIntent>)
        ensures
            match r {
                Some(o) => normalized_order_spec(
                    *row,
                    match fallback {
                        Some(f) => Some(f@),
                        None => None,
                    },
                ) == Some(o@),
                None => normalized_order_spec(
                    *row,
                    match fallback {
                        Some(f) => Some(f@),
                        None => None,
                    },
                ) is None,
            },
    {
        let symbol = match &row.symbol {
            Some(s) => s.clone(),
            None => match fallback {
                Some(f) => f.symbol.clone(),
                None => return None,
            },
        };
        let side = match &row.side {
            Some(raw) => Self::map_side(raw.as_str()),
            None => match fallback {
                Some(f) => f.side,
                None => OrderSide::Buy,
            },
        };
        let order_type = match &row.order_type {
            Some(raw) => Self::map_order_type(Some(raw.as_str())),
            None => match fallback {
                Some(f) => f.order_type,
                None => OrderType::Limit,
            },
        };
        let price = match row.price {
            Some(p) => p,
            None => match fallback {
                Some(f) => f.price,
                None => Dec::zero(),
            },
        };
        let qty = match row.quantity {
            Some(q) => q,
            None => match row.qty {
                Some(q) => q,
                None => match fallback {
                    Some(f) => f.qty,
                    None => Dec::zero(),
                },
            },
        };
        let client_order_id = match &row.client_order_id {
            Some(c) => c.clone(),
            None => match &row.client_id {
                Some(c) => c.clone(),
                None => match fallback {
                    Some(f) => f.client_order_id.clone(),
                    None => String::new(),
                },
            },
        };
        let reduce_only = match row.reduce_only {
            Some(b) => b,
            None => match fallback {
                Some(f) => f.reduce_only,
                None => false,
            },
        };
        let post_only = match row.post_only {
            Some(b) => b,
            None => match fallback {
                Some(f) => f.post_only,
                None => false,
            },
        };
        Some(OrderIntent { client_order_id, symbol, side, order_type, price, qty, reduce_only, post_only })
    }

    /// The rows whose status is open, in their order.
    pub fn open_orders_from_payload(rows: &[BackpackOrderRow]) -> (r: Vec<BackpackOrderRow>)
        ensures
            r@ == open_rows_spec(rows@),
    {
        let mut out: Vec<BackpackOrderRow> = Vec::new();
        let mut i: usize = 0;
        while i < rows.len()
            invariant
                i <= rows@.len(),
                out@ == open_rows_spec(rows@.take(i as int)),
            decreases rows@.len() - i,
        {
            assert(rows@.take(i + 1).drop_last() =~= rows@.take(i as int));
            assert(rows@.take(i + 1).last() == rows@[i as int]);
            let open = match &rows[i].status {
                Some(s) => Self::is_open_status(Some(s.as_str())),
                None => Self::is_open_status(None),
            };
            if open {
                out.push(rows[i].clone());
            }
            i = i + 1;
        }
        assert(rows@.take(rows@.len() as int) =~= rows@);
        out
    }

    /// Net equity and its available part, or the asset's collateral row.
    pub fn collateral_available(summary: &BackpackCollateralSummary, asset: &str) -> (r: Option<(Dec, Dec)>)
        requires
            summary.net_equity matches Some(d) ==> d.wf(),
            summary.net_equity_available matches Some(d) ==> d.wf(),
        ensures
            r == collateral_spec(*summary, asset@),
    {
        match (summary.net_equity, summary.net_equity_available) {
            (Some(total), Some(available)) => {
                if Dec::zero().less_than(&total) || Dec::zero().less_than(&available) {
                    return Some((total, available));
                }
            },
            _ => {},
        }
        let ghost rows = summary.collateral@;
        let mut i: usize = 0;
        assert(rows.skip(0) =~= rows);
        while i < summary.collateral.len()
            invariant
                !(summary.net_equity matches Some(t) && summary.net_equity_available matches Some(a) && (t@ > 0
                    || a@ > 0)),
                i <= rows.len(),
                rows == summary.collateral@,
                collateral_row_spec(rows, asset@) == collateral_row_spec(rows.skip(i as int), asset@),
            decreases rows.len() - i,
        {
            assert(rows.skip(i as int).drop_first() =~= rows.skip(i + 1));
            assert(rows.skip(i as int)[0] == rows[i as int]);
            let row = &summary.collateral[i];
            let matches = match &row.symbol {
                Some(s) => text_equals(s.as_str(), asset),
                None => false,
            };
            if matches {
                let total = match row.total_quantity {
                    Some(t) => t,
                    None => match row.balance_notional {
                        Some(t) => t,
                        None => Dec::zero(),
                    },
                };
                let available = match row.available_quantity {
                    Some(a) => a,
                    None => match row.balance_notional {
                        Some(a) => a,
                        None => total,
                    },
                };
                return Some((total, available));
            }
            i = i + 1;
        }
        None
    }
}

} // verus!
