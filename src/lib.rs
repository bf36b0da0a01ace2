use vstd::prelude::*;

pub mod value;
pub mod datapoint;
pub mod metadata;
pub mod vss;
pub mod client;

verus! {

} // verus!
