//! Streaming technical-analysis statistics over numeric time series.
//!
//! A *method* is a stateful transform that consumes one observation per tick
//! and emits one output, keeping only O(period) state. Methods are seeded
//! from their first observation, so they are well-defined from the first
//! output. Composite methods cascade simpler ones; crossing detectors turn
//! pairs of streams into discrete boundary-crossing events; an indicator
//! bundles methods and detectors into a fixed-width per-tick result.
//!
//! Values are exact fixed-point numbers: an `i64` holding the quantity
//! scaled by [`types::SCALE_ONE`]. All arithmetic is integer arithmetic with
//! truncating division, so every contract states the result exactly.

pub mod types;
pub mod math;
pub mod window;
pub mod method;
pub mod sma;
pub mod change;
pub mod trima;
pub mod cross;
pub mod parse;
pub mod chande_momentum_oscillator;
pub mod commodity_channel_index;
