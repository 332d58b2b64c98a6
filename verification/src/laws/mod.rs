//! What calls of this crate's functions come to, in terms of their arguments and
//! results alone.
//!
//! A law here takes the arguments and the result of a call, says so with
//! `call_ensures`, and concludes what a caller sees: which element stands where, which
//! input it comes from, and when nothing is left out.  The laws are stated over the
//! elements themselves, so that they stand beside the definitions that the contracts
//! use and do not repeat them.

use vstd::prelude::*;

pub mod batches;
pub mod detections;
pub mod drawing;
pub mod images;
pub mod models;
pub mod numbers;
pub mod nv12_frames;
pub mod providers;
pub mod queues;
pub mod statistics;
pub mod texts;

verus! {

} // verus!
