//! What the exchange's websocket stream hands the bot, and how a message's
//! channel is told apart.

use crate::decimal::Dec;
use crate::exchange::{normalize_open_order, open_order_spec, OpenOrderRow};
use crate::model::{OpenOrder, OpenOrderView, Position};
use crate::reconcile::opt_text;
use crate::text::lower_text;
use vstd::prelude::*;
use vstd::string::StrSliceExecFns;

verus! {

/// What one stream message tells: any of the mark price, the position and
/// the open orders.
#[derive(Debug, PartialEq)]
pub struct WsSnapshot {
    pub mark_price: Option<Dec>,
    pub position: Option<Position>,
    pub open_orders: Option<Vec<OpenOrder>>,
}

#[derive(Debug, PartialEq)]
pub enum WsEvent {
    Snapshot(WsSnapshot),
    Info(String),
    Error(String),
}

/// `needle` occurs in `hay`.
pub open spec fn contains_text(hay: Seq<char>, needle: Seq<char>) -> bool {
    exists|i: int| 0 <= i <= hay.len() - needle.len() && #[trigger] hay.subrange(i, i + needle.len()) == needle
}

fn find_text(hay: &Vec<char>, needle: &str) -> (r: bool)
    ensures
        r == contains_text(hay@, needle@),
{
    let n = hay.len();
    let m = needle.unicode_len();
    if m > n {
        return false;
    }
    let mut i: usize = 0;
    while i <= n - m
        invariant
            n == hay@.len(),
            m == needle@.len(),
            m <= n,
            i <= n - m + 1,
            forall|j: int| 0 <= j < i ==> #[trigger] hay@.subrange(j, j + m) != needle@,
        decreases n - m + 1 - i,
    {
        let mut k: usize = 0;
        while k < m && hay[i + k] == needle.get_char(k)
            invariant
                n == hay@.len(),
                m == needle@.len(),
                i + m <= n,
                k <= m,
                forall|t: int| 0 <= t < k ==> hay@[i + t] == needle@[t],
            decreases m - k,
        {
            k = k + 1;
        }
        if k == m {
            assert(hay@.subrange(i as int, i + m) =~= needle@);
            return true;
        }
        assert(hay@.subrange(i as int, i + m)[k as int] != needle@[k as int]);
        i = i + 1;
    }
    false
}

fn lowered(s: &str) -> (r: Vec<char>)
    ensures
        r@ == lower_text(s@),
{
    let n = s.unicode_len();
    let mut out: Vec<char> = Vec::new();
    let mut i: usize = 0;
    while i < n
        invariant
            n == s@.len(),
            i <= n,
            out@ == lower_text(s@).take(i as int),
        decreases n - i,
    {
        let c = s.get_char(i);
        let l = if 'A' <= c && c <= 'Z' {
            ((c as u8) + 32) as char
        } else {
            c
        };
        out.push(l);
        assert(lower_text(s@).take(i + 1) =~= lower_text(s@).take(i as int).push(l));
        i = i + 1;
    }
    assert(lower_text(s@).take(n as int) =~= lower_text(s@));
    out
}

/// Which topics a channel name speaks of, in any case: mark prices,
/// positions, orders.
pub fn channel_topics(channel: &str) -> (r: (bool, bool, bool))
    ensures
        r.0 == contains_text(lower_text(channel@), "mark"@),
        r.1 == contains_text(lower_text(channel@), "position"@),
        r.2 == contains_text(lower_text(channel@), "order"@),
{
    let lower = lowered(channel);
    (find_text(&lower, "mark"), find_text(&lower, "position"), find_text(&lower, "order"))
}

/// The open order an order message describes, when it has an order id and
/// its status is open.
pub fn ws_open_order(row: &OpenOrderRow) -> (r: Option<OpenOrder>)
    ensures
        match r {
            Some(o) => row.order_id is Some && open_order_spec(*row, Seq::empty()) == Some(o@),
            None => row.order_id is None || open_order_spec(*row, Seq::empty()) is None,
        },
{
    proof {
        reveal_strlit("");
        assert(""@ =~= Seq::<char>::empty());
    }
    if row.order_id.is_none() {
        return None;
    }
    normalize_open_order(row, "")
}

} // verus!
