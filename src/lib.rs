use vstd::prelude::*;

pub mod batch;
pub mod formats;
pub mod processor;
pub mod stats;
pub mod update;

verus! {

} // verus!
