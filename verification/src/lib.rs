//! Object detection with RF-DETR models: everything around the model itself.
//!
//! Images, raw BGR frames and NV12 frames become the planes that the model reads
//! ([`preprocess`], [`nv12`]); the raw outputs of the model become detections
//! ([`postprocess`]); an [`Engine`] ties the two together around a session that the
//! caller owns and runs.  The other modules choose an execution provider, answer
//! queued frames, draw boxes, and read what users and tools write.
//!
//! What the functions promise is said twice: by the contract at each function, and in
//! [`laws`] by what a caller can see of a call, element by element.
//!
//! Floating-point numbers are not computed with here.  They are carried as bit
//! patterns ([`float_bits`]) or as a type of the caller's, and the functions that
//! compute them are handed in.

use vstd::prelude::*;

pub mod annotate;
pub mod classes;
pub mod config;
pub mod engine;
pub mod error;
pub mod float_bits;
pub mod laws;
pub mod model;
pub mod nv12;
pub mod pipeline;
pub mod postprocess;
pub mod preprocess;
pub mod provider;
pub mod resize;
pub mod source_image;
pub mod stats;
pub mod text;
pub mod video;

pub use crate::config::{Device, EngineConfig, Precision};
pub use crate::engine::Engine;
pub use crate::error::Error;
pub use crate::model::ModelInfo;
pub use crate::postprocess::Detection;

verus! {

} // verus!
