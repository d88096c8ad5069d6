//! A verified core for a timed-comment ("danmaku") overlay: it resolves a
//! media item to a remote comment track, normalizes and filters the raw
//! comment records, and assigns each comment a lane and a scroll rate per
//! playback tick so that simultaneously visible comments in one lane do
//! not collide.
//!
//! All geometry and timing is carried in integers: times in milliseconds,
//! screen positions in sub-pixel units, scroll steps as numerators over a
//! fixed denominator.  The host-facing edges (HTTP, JSON decoding, the
//! player's property and overlay services) live outside this crate and
//! exchange plain values with it.

pub mod color;
pub mod comment;
pub mod error;
pub mod normalize;
pub mod options;
pub mod orchestrator;
pub mod playurl;
pub mod query;
pub mod sched;
pub mod source;
pub mod text;
pub mod trusted;

use vstd::prelude::*;

verus! {

/// The length of one scheduler tick, in milliseconds.
pub const INTERVAL_MS: i64 = 5;

/// The denominator of every scroll-step fraction: a step numerator `s`
/// moves a comment `s / STEP_DEN` of the viewport width per tick.
pub const STEP_DEN: i128 = 2_400_000;

/// The slowest admissible step numerator: `MIN_STEP / STEP_DEN` per tick
/// crosses the whole width in the nominal 12 seconds (2400 ticks).
pub const MIN_STEP: u32 = 1000;

/// The fastest admissible step numerator, 1.3 times the slowest.
pub const MAX_STEP: u32 = 1300;

/// The largest playback-timeline offset the model admits, about 126
/// years in milliseconds; keeps every tick count inside `i64`.
pub const TIME_MAX: i64 = 4_000_000_000_000;

/// The largest delay offset the model admits, symmetric around zero.
pub const DELAY_MAX: i64 = 4_000_000_000_000;

/// A bound on every stored scroll position in sub-pixel units; wide
/// enough for any reachable position, narrow enough that products with
/// step numerators stay inside `i128`.
pub const X_BOUND: i128 = 1_000_000_000_000_000_000_000_000_000_000_000;

/// More lanes than any viewport can hold: lane indices stay below this.
pub const ROW_MAX: usize = 1080;

} // verus!
