//! The order-sync bot's dealings with Backpack that are plain computation:
//! order keys, the sync plan, dry-run results, request signing payloads,
//! instructions and client ids, and open orders from response rows.

use crate::decimal::{dec_normalize, dec_to_string, lemma_normalized_of, normalized_of, text_of, Dec};
use crate::keys::{build_key_index, entries_with, entries_without, has_key, key_index, lemma_indexes_match, pair_views, split_by_keys};
use crate::model::{desired_views, open_views, DesiredOrder, DesiredOrderView, OpenOrder, OpenOrderView, Side};
use crate::reconcile::{bool_text, opt_text};
use crate::text::{decimal_digits, text_equals, usize_text};
use vstd::prelude::*;
use vstd::string::StringExecFns;

verus! {

#[derive(Debug, PartialEq)]
pub struct SyncResult {
    pub final_orders: Vec<OpenOrder>,
    pub place_orders: Vec<DesiredOrder>,
    pub cancel_orders: Vec<OpenOrder>,
    pub matched_orders: usize,
}

pub open spec fn side_debug_name(side: Side) -> Seq<char> {
    match side {
        Side::Buy => "Buy"@,
        Side::Sell => "Sell"@,
    }
}

/// `format!("{:?}:{}:{}:{}:{}", side, price.normalize(), qty.normalize(), reduce_only, post_only)`.
pub open spec fn sync_key_spec(side: Side, price: Dec, qty: Dec, reduce_only: bool, post_only: bool) -> Seq<char> {
    side_debug_name(side) + ":"@ + text_of(normalized_of(price)) + ":"@ + text_of(normalized_of(qty)) + ":"@
        + bool_text(reduce_only) + ":"@ + bool_text(post_only)
}

pub open spec fn desired_keyed(s: Seq<DesiredOrderView>) -> Seq<(Seq<char>, DesiredOrderView)> {
    s.map_values(|o: DesiredOrderView| (sync_key_spec(o.side, o.price, o.qty, o.reduce_only, o.post_only), o))
}

pub open spec fn open_keyed(s: Seq<OpenOrderView>) -> Seq<(Seq<char>, OpenOrderView)> {
    s.map_values(|o: OpenOrderView| (sync_key_spec(o.side, o.price, o.qty, o.reduce_only, o.post_only), o))
}

pub open spec fn desired_index_spec(s: Seq<DesiredOrderView>) -> Seq<(Seq<char>, DesiredOrderView)> {
    key_index::<String, DesiredOrderView>(desired_keyed(s))
}

pub open spec fn open_index_spec(s: Seq<OpenOrderView>) -> Seq<(Seq<char>, OpenOrderView)> {
    key_index::<String, OpenOrderView>(open_keyed(s))
}

pub open spec fn desired_prices_wf(s: Seq<DesiredOrder>) -> bool {
    forall|k: int| 0 <= k < s.len() ==> (#[trigger] s[k]).price.wf() && s[k].qty.wf()
}

pub open spec fn open_prices_wf(s: Seq<OpenOrder>) -> bool {
    forall|k: int| 0 <= k < s.len() ==> (#[trigger] s[k]).price.wf() && s[k].qty.wf()
}

fn key_text(side: Side, price: Dec, qty: Dec, reduce_only: bool, post_only: bool) -> (r: String)
    requires
        price.wf(),
        qty.wf(),
    ensures
        r@ == sync_key_spec(side, price, qty, reduce_only, post_only),
{
    proof {
        reveal_strlit("Buy");
        reveal_strlit("Sell");
        reveal_strlit("true");
        reveal_strlit("false");
        lemma_normalized_of(price);
        lemma_normalized_of(qty);
    }
    let mut key = String::from_str(
        match side {
            Side::Buy => "Buy",
            Side::Sell => "Sell",
        },
    );
    key.append(":");
    key.append(dec_to_string(dec_normalize(price)).as_str());
    key.append(":");
    key.append(dec_to_string(dec_normalize(qty)).as_str());
    key.append(":");
    key.append(
        if reduce_only {
            "true"
        } else {
            "false"
        },
    );
    key.append(":");
    key.append(
        if post_only {
            "true"
        } else {
            "false"
        },
    );
    key
}

/// The sync key of a desired order.
pub fn order_key_desired(order: &DesiredOrder) -> (r: String)
    requires
        order.price.wf(),
        order.qty.wf(),
    ensures
        r@ == sync_key_spec(order.side, order.price, order.qty, order.reduce_only, order.post_only),
{
    key_text(order.side, order.price, order.qty, order.reduce_only, order.post_only)
}

/// The sync key of an open order.
pub fn order_key_open(order: &OpenOrder) -> (r: String)
    requires
        order.price.wf(),
        order.qty.wf(),
    ensures
        r@ == sync_key_spec(order.side, order.price, order.qty, order.reduce_only, order.post_only),
{
    key_text(order.side, order.price, order.qty, order.reduce_only, order.post_only)
}

/// Whether every desired and open order has a representable price and quantity.
pub fn orders_well_formed(desired: &[DesiredOrder], existing: &[OpenOrder]) -> (r: bool)
    ensures
        r == (desired_prices_wf(desired@) && open_prices_wf(existing@)),
{
    let mut i: usize = 0;
    while i < desired.len()
        invariant
            i <= desired@.len(),
            forall|k: int| 0 <= k < i ==> (#[trigger] desired@[k]).price.wf() && desired@[k].qty.wf(),
        decreases desired@.len() - i,
    {
        if !(desired[i].price.is_wf() && desired[i].qty.is_wf()) {
            return false;
        }
        i = i + 1;
    }
    let mut j: usize = 0;
    while j < existing.len()
        invariant
            j <= existing@.len(),
            desired_prices_wf(desired@),
            forall|k: int| 0 <= k < j ==> (#[trigger] existing@[k]).price.wf() && existing@[k].qty.wf(),
        decreases existing@.len() - j,
    {
        if !(existing[j].price.is_wf() && existing[j].qty.is_wf()) {
            return false;
        }
        j = j + 1;
    }
    true
}

/// What a sync does before any request: the desired orders whose key is not
/// open (placed), the open orders whose key is not desired (cancelled), each
/// one per key in key order, and how many open keys are desired.
pub fn plan_sync(desired: &[DesiredOrder], existing: &[OpenOrder]) -> (r: (Vec<DesiredOrder>, Vec<OpenOrder>, usize))
    requires
        desired_prices_wf(desired@),
        open_prices_wf(existing@),
    ensures
        desired_views(r.0@) == entries_without(
            desired_index_spec(desired_views(desired@)),
            open_index_spec(open_views(existing@)),
        ),
        open_views(r.1@) == entries_without(
            open_index_spec(open_views(existing@)),
            desired_index_spec(desired_views(desired@)),
        ),
        r.2 == entries_with(open_index_spec(open_views(existing@)), desired_index_spec(desired_views(desired@))).len(),
{
    let mut keyed_desired: Vec<(String, DesiredOrder)> = Vec::new();
    let mut i: usize = 0;
    while i < desired.len()
        invariant
            i <= desired@.len(),
            desired_prices_wf(desired@),
            pair_views(keyed_desired@) == desired_keyed(desired_views(desired@)).take(i as int),
        decreases desired@.len() - i,
    {
        let order = desired[i].clone();
        let key = order_key_desired(&order);
        let ghost before = pair_views(keyed_desired@);
        let ghost entry = (key@, order@);
        keyed_desired.push((key, order));
        assert(pair_views(keyed_desired@) =~= before.push(entry));
        assert(desired_keyed(desired_views(desired@)).take(i + 1) =~= desired_keyed(desired_views(desired@)).take(
            i as int,
        ).push(entry));
        i = i + 1;
    }
    assert(desired_keyed(desired_views(desired@)).take(desired@.len() as int) =~= desired_keyed(
        desired_views(desired@),
    ));
    let mut keyed_open: Vec<(String, OpenOrder)> = Vec::new();
    let mut j: usize = 0;
    while j < existing.len()
        invariant
            j <= existing@.len(),
            open_prices_wf(existing@),
            pair_views(keyed_open@) == open_keyed(open_views(existing@)).take(j as int),
        decreases existing@.len() - j,
    {
        let order = existing[j].clone();
        let key = order_key_open(&order);
        let ghost before = pair_views(keyed_open@);
        let ghost entry = (key@, order@);
        keyed_open.push((key, order));
        assert(pair_views(keyed_open@) =~= before.push(entry));
        assert(open_keyed(open_views(existing@)).take(j + 1) =~= open_keyed(open_views(existing@)).take(j as int).push(
            entry,
        ));
        j = j + 1;
    }
    assert(open_keyed(open_views(existing@)).take(existing@.len() as int) =~= open_keyed(open_views(existing@)));
    let desired_index = build_key_index(keyed_desired);
    let open_index = build_key_index(keyed_open);
    let mut desired_copy: Vec<(String, DesiredOrder)> = Vec::new();
    let mut k: usize = 0;
    while k < desired_index.len()
        invariant
            k <= desired_index@.len(),
            desired_copy@ == desired_index@.take(k as int),
        decreases desired_index@.len() - k,
    {
        let (key, order) = (desired_index[k].0.clone(), desired_index[k].1.clone());
        desired_copy.push((key, order));
        assert(desired_copy@ =~= desired_index@.take(k + 1));
        k = k + 1;
    }
    assert(desired_index@.take(desired_index@.len() as int) =~= desired_index@);
    let (place_orders, _) = split_by_keys(desired_copy, &open_index);
    let (cancel_orders, kept) = split_by_keys(open_index, &desired_index);
    assert(desired_views(place_orders@) =~= place_orders@.map_values(|t: DesiredOrder| t@));
    assert(open_views(cancel_orders@) =~= cancel_orders@.map_values(|t: OpenOrder| t@));
    assert(kept@.map_values(|t: OpenOrder| t@).len() == kept@.len());
    (place_orders, cancel_orders, kept.len())
}

/// The open order a dry run stands in for a desired one.
pub open spec fn dry_run_open_order(o: DesiredOrderView) -> OpenOrderView {
    OpenOrderView {
        order_id: "dryrun:"@ + o.client_order_id,
        client_order_id: o.client_order_id,
        symbol: o.symbol,
        side: o.side,
        price: o.price,
        qty: o.qty,
        reduce_only: o.reduce_only,
        post_only: o.post_only,
        status: "open"@,
    }
}

/// The orders a dry run leaves open: every desired order, in order.
pub fn dry_run_final_orders(desired: &[DesiredOrder]) -> (r: Vec<OpenOrder>)
    ensures
        open_views(r@) == desired_views(desired@).map_values(|o: DesiredOrderView| dry_run_open_order(o)),
{
    proof {
        reveal_strlit("dryrun:");
        reveal_strlit("open");
    }
    let ghost want = desired_views(desired@).map_values(|o: DesiredOrderView| dry_run_open_order(o));
    let mut out: Vec<OpenOrder> = Vec::new();
    let mut i: usize = 0;
    while i < desired.len()
        invariant
            i <= desired@.len(),
            want == desired_views(desired@).map_values(|o: DesiredOrderView| dry_run_open_order(o)),
            open_views(out@) == want.take(i as int),
        decreases desired@.len() - i,
    {
        let o = &desired[i];
        let mut order_id = String::from_str("dryrun:");
        order_id.append(o.client_order_id.as_str());
        let open = OpenOrder {
            order_id,
            client_order_id: o.client_order_id.clone(),
            symbol: o.symbol.clone(),
            side: o.side,
            price: o.price,
            qty: o.qty,
            reduce_only: o.reduce_only,
            post_only: o.post_only,
            status: String::from_str("open"),
        };
        let ghost before = out@;
        out.push(open);
        assert(open_views(out@) =~= open_views(before).push(open@));
        assert(want.take(i + 1) =~= want.take(i as int).push(want[i as int]));
        i = i + 1;
    }
    assert(want.take(desired@.len() as int) =~= want);
    out
}

/// After a dry run the open orders are the desired ones, so syncing the
/// same desired orders again places and cancels nothing.
pub proof fn lemma_sync_after_dry_run_is_quiet(desired: Seq<DesiredOrderView>)
    ensures
        entries_without(
            desired_index_spec(desired),
            open_index_spec(desired.map_values(|o: DesiredOrderView| dry_run_open_order(o))),
        ).len() == 0,
        entries_without(
            open_index_spec(desired.map_values(|o: DesiredOrderView| dry_run_open_order(o))),
            desired_index_spec(desired),
        ).len() == 0,
{
    let opened = desired.map_values(|o: DesiredOrderView| dry_run_open_order(o));
    let a = desired_keyed(desired);
    let b = open_keyed(opened);
    assert forall|k: Seq<char>| has_key(a, k) == has_key(b, k) by {
        if has_key(a, k) {
            let j = choose|j: int| 0 <= j < a.len() && a[j].0 == k;
            assert(b[j].0 == k);
        }
        if has_key(b, k) {
            let j = choose|j: int| 0 <= j < b.len() && b[j].0 == k;
            assert(a[j].0 == k);
        }
    }
    lemma_indexes_match::<String, DesiredOrderView, OpenOrderView>(a, b);
}

/// The instruction Backpack signs a request to `path` under.
pub fn instruction_for(path: &str) -> (r: &'static str)
    ensures
        r@ == (if path@ == "/api/v1/position"@ {
            "positionQuery"@
        } else if path@ == "/api/v1/orders"@ {
            "orderQueryAll"@
        } else if path@ == "/api/v1/order"@ {
            "orderExecute"@
        } else if path@ == "/api/v1/capital/collateral"@ {
            "collateralQuery"@
        } else {
            "accountQuery"@
        }),
{
    if text_equals(path, "/api/v1/position") {
        "positionQuery"
    } else if text_equals(path, "/api/v1/orders") {
        "orderQueryAll"
    } else if text_equals(path, "/api/v1/order") {
        "orderExecute"
    } else if text_equals(path, "/api/v1/capital/collateral") {
        "collateralQuery"
    } else {
        "accountQuery"
    }
}

/// The decimal text of a signed integer.
pub open spec fn signed_digits(n: int) -> Seq<char> {
    if n < 0 {
        "-"@ + decimal_digits((-n) as nat)
    } else {
        decimal_digits(n as nat)
    }
}

/// `n.to_string()` for a signed integer.
pub fn signed_text(n: i64) -> (r: String)
    ensures
        r@ == signed_digits(n as int),
{
    if n < 0 {
        let magnitude: u64 = if n == i64::MIN {
            9223372036854775808u64
        } else {
            (-n) as u64
        };
        let mut s = String::from_str("-");
        s.append(usize_text_u64(magnitude).as_str());
        s
    } else {
        usize_text_u64(n as u64)
    }
}

fn usize_text_u64(n: u64) -> (r: String)
    ensures
        r@ == decimal_digits(n as nat),
    decreases n,
{
    if n < 10 {
        usize_text(n as usize)
    } else {
        let mut s = usize_text_u64(n / 10);
        s.append(usize_text((n % 10) as usize).as_str());
        s
    }
}

/// The `&k=v` parts of the signed parameters: those with a value, in key order.
pub open spec fn param_parts(index: Seq<(Seq<char>, Seq<char>)>) -> Seq<char>
    decreases index.len(),
{
    if index.len() == 0 {
        Seq::empty()
    } else {
        let rest = param_parts(index.drop_last());
        let (k, v) = index.last();
        if v.len() == 0 {
            rest
        } else {
            rest + "&"@ + k + "="@ + v
        }
    }
}

/// `instruction=<i>&<k>=<v>...&timestamp=<t>&window=<w>`, the parameters in
/// key order (the last value given for a key), those with empty values left out.
pub open spec fn signature_payload_spec(
    instruction: Seq<char>,
    params: Seq<(Seq<char>, Seq<char>)>,
    timestamp: int,
    window: Seq<char>,
) -> Seq<char> {
    "instruction="@ + instruction + param_parts(key_index::<String, Seq<char>>(params)) + "&timestamp="@
        + signed_digits(timestamp) + "&window="@ + window
}

/// The text Backpack expects signed for a request.
pub fn build_signature_payload(instruction: &str, params: &[(String, String)], timestamp: i64, window: &str) -> (r:
    String)
    ensures
        r@ == signature_payload_spec(instruction@, pair_views(params@), timestamp as int, window@),
{
    let mut pairs: Vec<(String, String)> = Vec::new();
    let mut i: usize = 0;
    while i < params.len()
        invariant
            i <= params@.len(),
            pair_views(pairs@) == pair_views(params@).take(i as int),
        decreases params@.len() - i,
    {
        let (k, v) = (params[i].0.clone(), params[i].1.clone());
        let ghost before = pair_views(pairs@);
        pairs.push((k, v));
        assert(pair_views(pairs@) =~= before.push((k@, v@)));
        assert(pair_views(params@).take(i + 1) =~= pair_views(params@).take(i as int).push((k@, v@)));
        i = i + 1;
    }
    assert(pair_views(params@).take(params@.len() as int) =~= pair_views(params@));
    let index = build_key_index(pairs);
    let ghost ix = pair_views(index@);
    let mut out = String::from_str("instruction=");
    out.append(instruction);
    let ghost head = out@;
    let mut j: usize = 0;
    assert(ix.take(0) =~= Seq::<(Seq<char>, Seq<char>)>::empty());
    assert(head + param_parts(ix.take(0)) =~= head);
    while j < index.len()
        invariant
            j <= index@.len(),
            ix == pair_views(index@),
            out@ == head + param_parts(ix.take(j as int)),
        decreases index@.len() - j,
    {
        assert(ix.take(j + 1).drop_last() =~= ix.take(j as int));
        assert(ix.take(j + 1).last() == (index@[j as int].0@, index@[j as int].1@));
        if index[j].1.unicode_len() > 0 {
            out.append("&");
            out.append(index[j].0.as_str());
            out.append("=");
            out.append(index[j].1.as_str());
        }
        j = j + 1;
    }
    assert(ix.take(index@.len() as int) =~= ix);
    out.append("&timestamp=");
    out.append(signed_text(timestamp).as_str());
    out.append("&window=");
    out.append(window);
    out
}

/// The MD5 digest of the UTF-8 bytes of a text.
pub uninterp spec fn md5_of_text(text: Seq<char>) -> Seq<u8>;

/// `md5::compute` over the text's bytes: sixteen bytes, named by the text.
#[verifier::external_body]
fn text_md5(text: &str) -> (r: [u8; 16])
    ensures
        r@ == md5_of_text(text@),
{
    md5::compute(text.as_bytes()).0
}

/// The first four bytes of a digest as a big-endian number.
pub open spec fn leading_u32(d: Seq<u8>) -> int {
    d[0] * 16777216 + d[1] * 65536 + d[2] * 256 + d[3]
}

/// A numeric client id for a textual one: the leading four bytes of its MD5
/// digest, big-endian, and at least one.
pub fn numeric_client_id(source: &str) -> (r: u32)
    ensures
        r == (if leading_u32(md5_of_text(source@)) < 1 {
            1
        } else {
            leading_u32(md5_of_text(source@))
        }),
{
    client_id_from_digest(&text_md5(source))
}

/// A numeric client id from an MD5 digest: its leading four bytes,
/// big-endian, and at least one.
pub fn client_id_from_digest(digest: &[u8; 16]) -> (r: u32)
    ensures
        r == (if leading_u32(digest@) < 1 {
            1
        } else {
            leading_u32(digest@)
        }),
{
    let value: u32 = (digest[0] as u32) * 16777216 + (digest[1] as u32) * 65536 + (digest[2] as u32) * 256
        + (digest[3] as u32);
    if value < 1 {
        1
    } else {
        value
    }
}

/// The fields of an order row the exchange returns, read from its JSON.
#[derive(Debug, PartialEq, Default)]
pub struct OpenOrderRow {
    pub order_id: Option<String>,
    pub client_order_id: Option<String>,
    pub symbol: Option<String>,
    pub side: Option<String>,
    pub price: Option<Dec>,
    pub qty: Option<Dec>,
    pub reduce_only: Option<bool>,
    pub post_only: Option<bool>,
    pub status: Option<String>,
}

pub open spec fn open_status(status: Seq<char>) -> bool {
    status == "Open"@ || status == "New"@ || status == "Accepted"@ || status == "open"@ || status == "new"@ || status
        == "accepted"@
}

/// The side an exchange side names: `Ask`, `sell` or `Sell` sell, anything else buys.
pub open spec fn row_side(side: Seq<char>) -> Side {
    if side == "Ask"@ || side == "sell"@ || side == "Sell"@ {
        Side::Sell
    } else {
        Side::Buy
    }
}

/// The open order a row describes, when its status (`Open` when absent) is
/// open; missing texts are empty (the symbol defaults to `symbol`), missing
/// numbers zero, missing flags false, a missing side a bid.
pub open spec fn open_order_spec(row: OpenOrderRow, symbol: Seq<char>) -> Option<OpenOrderView> {
    let status = match opt_text(row.status) {
        Some(t) => t,
        None => "Open"@,
    };
    if !open_status(status) {
        None
    } else {
        Some(
            OpenOrderView {
                order_id: match opt_text(row.order_id) {
                    Some(t) => t,
                    None => Seq::empty(),
                },
                client_order_id: match opt_text(row.client_order_id) {
                    Some(t) => t,
                    None => Seq::empty(),
                },
                symbol: match opt_text(row.symbol) {
                    Some(t) => t,
                    None => symbol,
                },
                side: match opt_text(row.side) {
                    Some(t) => row_side(t),
                    None => Side::Buy,
                },
                price: match row.price {
                    Some(p) => p,
                    None => Dec::zero_spec(),
                },
                qty: match row.qty {
                    Some(q) => q,
                    None => Dec::zero_spec(),
                },
                reduce_only: match row.reduce_only {
                    Some(b) => b,
                    None => false,
                },
                post_only: match row.post_only {
                    Some(b) => b,
                    None => false,
                },
                status,
            },
        )
    }
}

fn text_or(t: &Option<String>, fallback: &str) -> (r: String)
    ensures
        r@ == match opt_text(*t) {
            Some(s) => s,
            None => fallback@,
        },
{
    match t {
        Some(s) => s.clone(),
        None => String::from_str(fallback),
    }
}

/// The open order a row describes, when its status is open.
pub fn normalize_open_order(row: &OpenOrderRow, symbol: &str) -> (r: Option<OpenOrder>)
    ensures
        match r {
            Some(o) => open_order_spec(*row, symbol@) == Some(o@),
            None => open_order_spec(*row, symbol@) is None,
        },
{
    proof {
        reveal_strlit("Open");
        reveal_strlit("");
        assert(""@ =~= Seq::<char>::empty());
    }
    let status = text_or(&row.status, "Open");
    let s = status.as_str();
    if !(text_equals(s, "Open") || text_equals(s, "New") || text_equals(s, "Accepted") || text_equals(s, "open")
        || text_equals(s, "new") || text_equals(s, "accepted")) {
        return None;
    }
    let side = match &row.side {
        Some(t) => if text_equals(t.as_str(), "Ask") || text_equals(t.as_str(), "sell") || text_equals(
            t.as_str(),
            "Sell",
        ) {
            Side::Sell
        } else {
            Side::Buy
        },
        None => Side::Buy,
    };
    Some(
        OpenOrder {
            order_id: text_or(&row.order_id, ""),
            client_order_id: text_or(&row.client_order_id, ""),
            symbol: text_or(&row.symbol, symbol),
            side,
            price: match row.price {
                Some(p) => p,
                None => Dec::zero(),
            },
            qty: match row.qty {
                Some(q) => q,
                None => Dec::zero(),
            },
            reduce_only: match row.reduce_only {
                Some(b) => b,
                None => false,
            },
            post_only: match row.post_only {
                Some(b) => b,
                None => false,
            },
            status,
        },
    )
}

} // verus!
