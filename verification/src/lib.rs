use vstd::prelude::*;

pub mod identity;
pub mod lifecycle;
pub mod slot;
pub mod clock;
pub mod deadlines;
pub mod ledger;
pub mod qualification;
mod sorted;
pub mod closure;
pub mod sequence;
pub mod admission;
pub mod completion;
pub mod record;

verus! {
} // verus!
