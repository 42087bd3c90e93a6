//! Message plane of a Discreet Log Contract node: wire codec, segmentation,
//! offer registry, conversation state machine and relay envelopes.
use vstd::prelude::*;

pub mod wire;
pub mod segment;
pub mod registry;
pub mod protocol;
pub mod envelope;
pub mod keyed;
pub mod handler;

verus! {

} // verus!
