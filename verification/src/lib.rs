//! Incremental ingestion of schema-less tabular files into a time-series
//! store: content fingerprinting, an idempotence cache with a verified
//! snapshot codec, per-value field classification, and the decision logic
//! of a three-stage pipeline.
use vstd::prelude::*;

pub mod cache;
pub mod errors;
pub mod fingerprint;
pub mod hexcode;
pub mod numeric;
pub mod pipeline;
pub mod record;
pub mod snapshot;
pub mod stats;
pub mod strconv;
pub mod writes;

pub use errors::ImportError;
