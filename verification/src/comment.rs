//! The canonical comment model: one ingested remark, its transient scroll
//! state, and the well-formedness bounds the scheduler maintains.
//!
//! Times are milliseconds on the playback timeline.  A scroll position
//! `x` is measured in sub-pixel units of `1/STEP_DEN` pixel; a scroll
//! step is a numerator over `STEP_DEN`, giving the fraction of the
//! viewport width travelled per tick.

use vstd::prelude::*;
use crate::source::Source;
use crate::{MAX_STEP, MIN_STEP, ROW_MAX, TIME_MAX, X_BOUND};

verus! {

/// The live placement of a scheduled comment: horizontal position `x` in
/// sub-pixel units, the lane index `row`, and the per-tick step numerator.
#[derive(Debug, Clone, Copy, PartialEq, Eq, Structural)]
pub struct StatusInner {
    pub x: i128,
    pub row: usize,
    pub step: u32,
}

/// The transient scroll state of a comment.
#[derive(Debug, Clone, Copy, PartialEq, Eq, Structural)]
pub enum Status {
    /// Not yet placed this playback stretch.
    Unscheduled,
    /// Placed: scrolling with the recorded position, lane and step.
    Scheduled(StatusInner),
    /// Dropped under the no-overlap policy; never reconsidered until a
    /// discontinuity resets every state.
    Skipped,
}

impl Status {
    /// Replace this state with a fresh placement.
    pub fn insert(&mut self, status: StatusInner)
        ensures
            *final(self) == Status::Scheduled(status),
    {
        *self = Status::Scheduled(status);
    }
}

/// One ingested remark.
#[derive(Debug, Clone)]
pub struct Danmaku {
    /// Display text, with every literal newline escaped to `\N`.
    pub message: String,
    /// Count of user-perceived character clusters (display cells) of
    /// the raw message, for collision-extent math.
    pub count: usize,
    /// Playback-timeline offset in milliseconds.
    pub time: i64,
    pub r: u8,
    pub g: u8,
    pub b: u8,
    pub source: Source,
    /// Hidden by the origin filter; reversible, independent of membership.
    pub blocked: bool,
    pub status: Status,
}

/// Bounds every stored scroll state satisfies: the step numerator stays
/// in the admissible band and the position cannot stray far enough to
/// overflow any later product.
pub open spec fn wf_status(st: Status) -> bool {
    match st {
        Status::Scheduled(s) => {
            MIN_STEP <= s.step <= MAX_STEP && -X_BOUND <= s.x <= X_BOUND && s.row < ROW_MAX
        },
        _ => true,
    }
}

/// Bounds every stored comment satisfies.
pub open spec fn wf_comment(c: Danmaku) -> bool {
    -TIME_MAX <= c.time <= TIME_MAX && wf_status(c.status)
}

/// Every comment of the sequence is well formed.
pub open spec fn wf_comments(s: Seq<Danmaku>) -> bool {
    forall|i: int| 0 <= i < s.len() ==> wf_comment(#[trigger] s[i])
}

/// The stored sequence is sorted by `time`, ascending.
pub open spec fn sorted_by_time(s: Seq<Danmaku>) -> bool {
    forall|i: int, j: int| 0 <= i < j < s.len() ==> #[trigger] s[i].time <= #[trigger] s[j].time
}

/// The parts of a comment that nothing after ingestion ever changes.
pub open spec fn same_payload(a: Danmaku, b: Danmaku) -> bool {
    a.message == b.message && a.count == b.count && a.time == b.time && a.r == b.r && a.g == b.g
        && a.b == b.b && a.source == b.source
}

/// The parts of a comment the scheduler never touches.
pub open spec fn same_core(a: Danmaku, b: Danmaku) -> bool {
    same_payload(a, b) && a.blocked == b.blocked
}

} // verus!
