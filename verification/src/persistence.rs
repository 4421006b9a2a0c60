//! The checkpoint written after each cycle and where it is kept; reading and
//! writing the file is the application's part.

use crate::clock::now_unix_ms;
use crate::service::ServiceCycleOutput;
use crate::state::{RuntimeState, RuntimeStateView};
use vstd::prelude::*;
use vstd::string::StringExecFns;

verus! {

#[derive(Debug, PartialEq)]
pub struct RuntimeCheckpoint {
    pub state: RuntimeState,
    pub symbol: String,
    pub desired_orders: usize,
    pub matched_orders: usize,
    pub synthetic_fill: bool,
    pub saved_at_unix_ms: i64,
}

/// The checkpoint of a cycle: its state, the symbol, the number of desired
/// orders, the matched count and whether a fill was inferred.
pub open spec fn checkpoint_matches(r: RuntimeCheckpoint, cycle: ServiceCycleOutput, symbol: Seq<char>) -> bool {
    &&& r.state@ == cycle.state@
    &&& r.symbol@ == symbol
    &&& r.desired_orders == cycle.planner.desired_orders@.len()
    &&& r.matched_orders == cycle.reconciliation.diff.matched
    &&& r.synthetic_fill == (cycle.reconciliation.synthetic_fill is Some)
}

impl RuntimeCheckpoint {
    /// The checkpoint of `cycle`, stamped with the clock.
    pub fn from_cycle(cycle: &ServiceCycleOutput, symbol: &str) -> (r: RuntimeCheckpoint)
        ensures
            checkpoint_matches(r, *cycle, symbol@),
    {
        RuntimeCheckpoint {
            state: cycle.state.clone(),
            symbol: String::from_str(symbol),
            desired_orders: cycle.planner.desired_orders.len(),
            matched_orders: cycle.reconciliation.diff.matched,
            synthetic_fill: cycle.reconciliation.synthetic_fill.is_some(),
            saved_at_unix_ms: now_unix_ms(),
        }
    }
}

/// Where the checkpoint file lives.
#[derive(Debug)]
pub struct JsonFilePersistence {
    path: String,
}

impl JsonFilePersistence {
    pub closed spec fn path_view(&self) -> Seq<char> {
        self.path@
    }

    pub fn new(path: &str) -> (r: JsonFilePersistence)
        ensures
            r.path_view() == path@,
    {
        JsonFilePersistence { path: String::from_str(path) }
    }

    pub fn path(&self) -> (r: &String)
        ensures
            r@ == self.path_view(),
    {
        &self.path
    }
}

impl Clone for JsonFilePersistence {
    fn clone(&self) -> (r: Self)
        ensures
            r.path_view() == self.path_view(),
    {
        JsonFilePersistence { path: self.path.clone() }
    }
}

} // verus!
