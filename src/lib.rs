//! Quota and budget admission control: a ledger of per-scope limits, an
//! all-or-nothing admission check across the quota and budget axes, a drift
//! detector, and an oracle-wins reconciliation step.
use vstd::prelude::*;

pub mod admission;
pub mod drift;
pub mod ledger;
pub mod sync;
pub mod tally;

verus! {

} // verus!
