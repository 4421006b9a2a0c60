//! The decisions of one order-sync cycle: which values to read over REST
//! and which to take from the cache the stream keeps, what a paused cycle
//! syncs, what it notes in the journal and what it reports.

use crate::decimal::{abs_int, Dec};
use crate::exchange::SyncResult;
use crate::model::{open_views, CycleReport, OpenOrder, OpenOrderView, Position};
use crate::settings::Config;
use crate::strategy::texts;
use crate::stream::WsSnapshot;
use vstd::prelude::*;
use vstd::string::StringExecFns;

verus! {

/// One line of the event journal.
#[derive(Debug, PartialEq)]
pub struct EventLine<'a> {
    pub ts: String,
    pub level: &'a str,
    pub message: &'a str,
}

/// What the last reads and the stream left: the mark price, position and
/// open orders, and how many cycles have run.
#[derive(Debug)]
pub struct CycleCache {
    pub cached_mark_price: Option<Dec>,
    pub cached_position: Option<Position>,
    pub cached_orders: Option<Vec<OpenOrder>>,
    pub rest_cycle_counter: u64,
}

/// Which values a cycle reads over REST.
#[derive(Debug, Clone, Copy, PartialEq, Eq, Structural)]
pub struct RefreshPlan {
    pub mark_price: bool,
    pub position: bool,
    pub orders: bool,
}

/// Every value is read on the first cycle and every fourth one after it.
pub open spec fn rest_due(counter: u64) -> bool {
    counter == 0 || counter % 4 == 0
}

pub open spec fn orders_view(o: Option<Vec<OpenOrder>>) -> Option<Seq<OpenOrderView>> {
    match o {
        Some(v) => Some(open_views(v@)),
        None => None,
    }
}

fn clone_orders(v: &Vec<OpenOrder>) -> (r: Vec<OpenOrder>)
    ensures
        r@ == v@,
{
    let r = v.clone();
    assert(r@ =~= v@);
    r
}

impl CycleCache {
    pub fn new() -> (r: CycleCache)
        ensures
            r.cached_mark_price is None,
            r.cached_position is None,
            r.cached_orders is None,
            r.rest_cycle_counter == 0,
    {
        CycleCache { cached_mark_price: None, cached_position: None, cached_orders: None, rest_cycle_counter: 0 }
    }

    /// Reads everything when due, and whatever is not cached.
    pub fn refresh_plan(&self) -> (r: RefreshPlan)
        ensures
            r.mark_price == (rest_due(self.rest_cycle_counter) || self.cached_mark_price is None),
            r.position == (rest_due(self.rest_cycle_counter) || self.cached_position is None),
            r.orders == (rest_due(self.rest_cycle_counter) || self.cached_orders is None),
    {
        let due = self.rest_cycle_counter == 0 || self.rest_cycle_counter % 4 == 0;
        RefreshPlan {
            mark_price: due || self.cached_mark_price.is_none(),
            position: due || self.cached_position.is_none(),
            orders: due || self.cached_orders.is_none(),
        }
    }

    /// Takes in what a stream message carries; what it does not carry stays.
    pub fn ingest_snapshot(&mut self, snapshot: WsSnapshot)
        ensures
            final(self).cached_mark_price == (match snapshot.mark_price {
                Some(m) => Some(m),
                None => old(self).cached_mark_price,
            }),
            final(self).cached_position == (match snapshot.position {
                Some(p) => Some(p),
                None => old(self).cached_position,
            }),
            orders_view(final(self).cached_orders) == (match snapshot.open_orders {
                Some(o) => Some(open_views(o@)),
                None => orders_view(old(self).cached_orders),
            }),
            final(self).rest_cycle_counter == old(self).rest_cycle_counter,
    {
        if let Some(mark) = snapshot.mark_price {
            self.cached_mark_price = Some(mark);
        }
        if let Some(position) = snapshot.position {
            self.cached_position = Some(position);
        }
        if let Some(orders) = snapshot.open_orders {
            self.cached_orders = Some(orders);
        }
    }

    /// Ends the reads of a cycle: one more cycle counted, saturating.
    pub fn finish_reads(&mut self)
        ensures
            final(self).rest_cycle_counter == (if old(self).rest_cycle_counter == u64::MAX {
                u64::MAX
            } else {
                (old(self).rest_cycle_counter + 1) as u64
            }),
            final(self).cached_mark_price == old(self).cached_mark_price,
            final(self).cached_position == old(self).cached_position,
            orders_view(final(self).cached_orders) == orders_view(old(self).cached_orders),
    {
        self.rest_cycle_counter = self.rest_cycle_counter.saturating_add(1);
    }
}

/// A paused cycle syncs nothing: the open orders stay as they are.
pub fn sync_when_paused(existing: &Vec<OpenOrder>) -> (r: SyncResult)
    ensures
        open_views(r.final_orders@) == open_views(existing@),
        r.place_orders@.len() == 0,
        r.cancel_orders@.len() == 0,
        r.matched_orders == 0,
{
    SyncResult {
        final_orders: clone_orders(existing),
        place_orders: Vec::new(),
        cancel_orders: Vec::new(),
        matched_orders: 0,
    }
}

/// What a cycle writes to the journal, in order: the mode, whether the
/// stream is up, and the pause reason (or `paused`) when paused.
pub open spec fn cycle_notes_spec(live_enabled: bool, stream_up: bool, paused: bool, reason: Option<Seq<char>>) -> Seq<
    Seq<char>,
> {
    let mode = if live_enabled {
        "cycle executed in live mode"@
    } else {
        "cycle executed in dry-run mode"@
    };
    let stream = if stream_up {
        "ws enabled with rest reconciliation fallback"@
    } else {
        "ws unavailable, rest only mode"@
    };
    let pause = if paused {
        seq![
            match reason {
                Some(r) => r,
                None => "paused"@,
            },
        ]
    } else {
        Seq::empty()
    };
    seq![mode, stream] + pause
}

pub fn cycle_notes(live_enabled: bool, stream_up: bool, paused: bool, pause_reason: &Option<String>) -> (r: Vec<
    String,
>)
    ensures
        texts(r@) == cycle_notes_spec(
            live_enabled,
            stream_up,
            paused,
            match pause_reason {
                Some(t) => Some(t@),
                None => None,
            },
        ),
{
    let mut notes: Vec<String> = Vec::new();
    notes.push(
        String::from_str(
            if live_enabled {
                "cycle executed in live mode"
            } else {
                "cycle executed in dry-run mode"
            },
        ),
    );
    notes.push(
        String::from_str(
            if stream_up {
                "ws enabled with rest reconciliation fallback"
            } else {
                "ws unavailable, rest only mode"
            },
        ),
    );
    if paused {
        notes.push(
            match pause_reason {
                Some(t) => t.clone(),
                None => String::from_str("paused"),
            },
        );
    }
    let ghost want = cycle_notes_spec(
        live_enabled,
        stream_up,
        paused,
        match pause_reason {
            Some(t) => Some(t@),
            None => None,
        },
    );
    assert(texts(notes@) =~= want);
    notes
}

/// The report of a cycle: its figures as read and synced, and the issues
/// met, with `position_already_over_limit` added when the position exceeds
/// the cap.
pub fn cycle_report(
    config: &Config,
    ts: String,
    mark_price: Dec,
    position: &Position,
    desired_orders: usize,
    existing_orders: usize,
    sync: &SyncResult,
    paused: bool,
    pause_reason: Option<String>,
    issues: Vec<String>,
) -> (r: CycleReport)
    requires
        position.size.wf(),
        config.max_position_abs.wf(),
    ensures
        r.ts == ts,
        r.symbol@ == config.symbol@,
        r.mode@ == (if config.live_enabled {
            "live"@
        } else {
            "dry_run"@
        }),
        r.mark_price == mark_price,
        r.position_size == position.size,
        r.entry_price == position.entry_price,
        r.desired_orders == desired_orders,
        r.existing_orders == existing_orders,
        r.place_orders == sync.place_orders@.len(),
        r.cancel_orders == sync.cancel_orders@.len(),
        r.matched_orders == sync.matched_orders,
        r.paused == paused,
        r.pause_reason == pause_reason,
        texts(r.issues@) == (if abs_int(position.size@) > config.max_position_abs@ {
            texts(issues@).push("position_already_over_limit"@)
        } else {
            texts(issues@)
        }),
{
    let mut issues = issues;
    let ghost before = texts(issues@);
    if config.max_position_abs.less_than(&position.size.abs()) {
        issues.push(String::from_str("position_already_over_limit"));
        assert(texts(issues@) =~= before.push("position_already_over_limit"@));
    }
    CycleReport {
        ts,
        symbol: config.symbol.clone(),
        mode: String::from_str(
            if config.live_enabled {
                "live"
            } else {
                "dry_run"
            },
        ),
        mark_price,
        position_size: position.size,
        entry_price: position.entry_price,
        desired_orders,
        existing_orders,
        place_orders: sync.place_orders.len(),
        cancel_orders: sync.cancel_orders.len(),
        matched_orders: sync.matched_orders,
        paused,
        pause_reason,
        issues,
    }
}

} // verus!
