//! What the read-only HTTP client hands the service, and the parts of its
//! work that are plain computation.

use super::backpack::{normalized_order_spec, BackpackNormalize};
use super::dto::{BackpackCollateralSummary, BackpackOrderRow};
use crate::decimal::Dec;
use crate::domain::Position;
use crate::execution::{ExistingOrder, ExistingOrderView};
use crate::reconcile::opt_text;
use vstd::prelude::*;
use vstd::string::{StrSliceExecFns, StringExecFns};

verus! {

/// One read of the account: mark price, position, open orders, collateral.
#[derive(Debug, PartialEq)]
pub struct ReadOnlyAccountSnapshot {
    pub symbol: String,
    pub mark_price: Dec,
    pub position: Position,
    pub open_orders: Vec<ExistingOrder>,
    pub collateral: Option<BackpackCollateralSummary>,
}

/// The exchange order a row describes: its order id (or id, or empty), its
/// client id (or the intent's), and the intent the row gives on its own.
pub open spec fn existing_order_spec(row: BackpackOrderRow) -> Option<ExistingOrderView> {
    match normalized_order_spec(row, None) {
        None => None,
        Some(intent) => Some(
            ExistingOrderView {
                order_id: match opt_text(row.order_id) {
                    Some(t) => t,
                    None => match opt_text(row.id) {
                        Some(t) => t,
                        None => Seq::empty(),
                    },
                },
                client_order_id: match opt_text(row.client_order_id) {
                    Some(t) => t,
                    None => match opt_text(row.client_id) {
                        Some(t) => t,
                        None => intent.client_order_id,
                    },
                },
                intent,
            },
        ),
    }
}

/// The exchange order a row describes, when it names a symbol.
pub fn normalize_existing_order(row: &BackpackOrderRow) -> (r: Option<ExistingOrder>)
    ensures
        match r {
            Some(o) => existing_order_spec(*row) == Some(o@),
            None => existing_order_spec(*row) is None,
        },
{
    let intent = match BackpackNormalize::normalize_order(row, None) {
        Some(intent) => intent,
        None => return None,
    };
    let order_id = match &row.order_id {
        Some(id) => id.clone(),
        None => match &row.id {
            Some(id) => id.clone(),
            None => String::new(),
        },
    };
    let client_order_id = match &row.client_order_id {
        Some(id) => id.clone(),
        None => match &row.client_id {
            Some(id) => id.clone(),
            None => intent.client_order_id.clone(),
        },
    };
    Some(ExistingOrder { order_id, client_order_id, intent })
}

/// `raw.trim_end_matches('/')`.
pub open spec fn without_trailing_slashes(raw: Seq<char>) -> Seq<char>
    decreases raw.len(),
{
    if raw.len() > 0 && raw.last() == '/' {
        without_trailing_slashes(raw.drop_last())
    } else {
        raw
    }
}

/// The base URL with its trailing slashes removed.
pub fn base_url_of(raw: &str) -> (r: String)
    ensures
        r@ == without_trailing_slashes(raw@),
{
    let n = raw.unicode_len();
    let mut end: usize = n;
    assert(raw@.subrange(0, n as int) =~= raw@);
    while end > 0 && raw.get_char(end - 1) == '/'
        invariant
            n == raw@.len(),
            end <= n,
            without_trailing_slashes(raw@) == without_trailing_slashes(raw@.subrange(0, end as int)),
        decreases end,
    {
        assert(raw@.subrange(0, end as int).drop_last() =~= raw@.subrange(0, end - 1));
        end = end - 1;
    }
    String::from_str(raw.substring_char(0, end))
}

} // verus!
