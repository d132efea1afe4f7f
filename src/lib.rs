//! Audio effects that mangle a sample buffer: decimation with optional
//! jitter (aliasing) and repeated short windows (stutter).
//!
//! Samples are opaque values that the effects copy and rearrange but never
//! change. Every random draw comes from a generator that the caller hands
//! in, so a seeded generator makes a run repeatable.

pub mod alias;
pub mod block;
pub mod random;
pub mod stutter;
pub mod time;

pub use crate::alias::{decimate, jitter_step, jitter_walk, samples_covering, AliasBlock};
pub use crate::block::{BlockError, OutputBuffer, SignalBlock, OUTPUT_CHANNELS, OUTPUT_SAMPLE_RATE};
pub use crate::stutter::{location_bound, place_stutter, stutter_at, StutterBlock};
pub use crate::time::{InclusiveRange, TimeSpan, NANOS_PER_SEC};
