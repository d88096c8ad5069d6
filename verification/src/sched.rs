//! The lane scheduler.  Once per tick it walks the time-sorted comment
//! sequence up to the playback position, reconstructs the per-lane
//! occupancy table from scratch, places every newly due comment into the
//! first lane whose occupant is guaranteed clear, advances the live ones,
//! and emits a placement record for each visible comment.
//!
//! All geometry is integer: positions in sub-pixel units of
//! `1/STEP_DEN` pixel, steps as numerators over `STEP_DEN`, speeds in
//! thousandths.

use vstd::prelude::*;
use crate::comment::{
    same_core, sorted_by_time, wf_comment, wf_comments, Danmaku, Status, StatusInner,
};
use crate::options::Options;
use crate::trusted::draw_step;
use crate::{DELAY_MAX, INTERVAL_MS, MAX_STEP, MIN_STEP, ROW_MAX, STEP_DEN, TIME_MAX, X_BOUND};

verus! {

/// Every tick count the model can produce: `(pos - due) / INTERVAL_MS`
/// with both ends inside the admissible time band.
pub const TICKS_MAX: i64 = 2_400_000_000_000;

/// A bound on every lane `end` value, wide enough for any reachable
/// trailing edge, narrow enough that products with step numerators stay
/// inside `i128`.
pub const END_BOUND: i128 = 2_000_000_000_000_000_000_000_000_000_000_000;

/// One lane of the per-tick occupancy table: the trailing edge of its
/// authoritative occupant, in sub-pixel units, and that occupant's step.
#[derive(Debug, Clone, Copy, PartialEq, Eq, Structural)]
pub struct Lane {
    pub end: i128,
    pub step: u32,
}

/// One visible comment this tick, for the host overlay: `x` in sub-pixel
/// units of the fitted viewport, `y` in whole pixels from the top.
#[derive(Debug, Clone)]
pub struct Placement {
    pub x: i128,
    pub y: i64,
    pub r: u8,
    pub g: u8,
    pub b: u8,
    pub message: String,
    pub font_size: u16,
}

/// Bounds every lane of the table satisfies.
pub open spec fn wf_lane(l: Lane) -> bool {
    MIN_STEP <= l.step <= MAX_STEP && -END_BOUND <= l.end <= END_BOUND
}

/// Every lane of the table is well formed.
pub open spec fn wf_lanes(s: Seq<Lane>) -> bool {
    forall|i: int| 0 <= i < s.len() ==> wf_lane(#[trigger] s[i])
}

/// The fitted viewport width: 1920x1080 shrunk to the host's reported
/// aspect, whichever dimension exceeds 16:9 giving way; degenerate
/// reports keep the full size.
pub open spec fn fit_w(osd_w: int, osd_h: int) -> int {
    if osd_w <= 0 || osd_h <= 0 {
        1920
    } else if 1920 * osd_h > 1080 * osd_w {
        (1080 * osd_w) / osd_h
    } else {
        1920
    }
}

/// The fitted viewport height (see `fit_w`).
pub open spec fn fit_h(osd_w: int, osd_h: int) -> int {
    if osd_w <= 0 || osd_h <= 0 {
        1080
    } else if 1920 * osd_h < 1080 * osd_w {
        (1920 * osd_h) / osd_w
    } else {
        1080
    }
}

/// The lane count for a viewport: the usable height over the line pitch,
/// and never below one.
pub open spec fn lane_count_spec(h: int, reserved: int, font: int) -> int {
    let c = (h * (1000 - reserved)) / (1000 * (font + font / 10));
    if c == 0 {
        1
    } else {
        c
    }
}

/// Ticks elapsed since a comment came due.
pub open spec fn ticks_of(time: int, delay: int, pos: int) -> int {
    (pos - (time + delay)) / (INTERVAL_MS as int)
}

/// Where a comment placed `ticks` after its due time at `step` starts,
/// in sub-pixel units: the right edge, minus what it has already
/// travelled.
pub open spec fn fresh_x(w: int, ticks: int, step: int) -> int {
    w * (STEP_DEN - ticks * step)
}

/// How far a comment moves in one tick, in sub-pixel units: its step
/// times the playback and option speed factors.
pub open spec fn advance_amt(w: int, step: int, speed: int, ospeed: int) -> int {
    (w * step * speed * ospeed) / 1_000_000
}

/// The collision extent of a comment past its `x`: its text width plus
/// the inter-line spacing, in sub-pixel units.
pub open spec fn extent_of(count: int, font: int) -> int {
    (count * font + font / 10) * STEP_DEN
}

/// A comment fully past the left edge: not drawn, not advanced.
pub open spec fn is_culled(x: int, count: int, font: int) -> bool {
    x + extent_of(count, font) <= 0
}

/// A lane admits a candidate `ticks` after its due time when even at
/// minimum speed the lane's occupant will have cleared the candidate's
/// start position.
pub open spec fn lane_admissible(l: Lane, ticks: int, w: int) -> bool {
    l.end < w * (STEP_DEN - ticks * MIN_STEP)
}

/// The exclusive step ceiling a lane imposes on a fresh candidate: the
/// rate at which the candidate's leading edge would just touch the
/// occupant's trailing edge, capped by `MAX_STEP`, and kept above
/// `MIN_STEP` so the admissible band is never empty.  A cleared lane
/// (`end <= 0`) imposes only `MAX_STEP`.
pub open spec fn step_ceiling(l: Lane, ticks: int, w: int) -> int {
    if l.end <= 0 {
        MAX_STEP as int
    } else {
        let c = (STEP_DEN * w * l.step) / (ticks * w * l.step + l.end);
        if c >= MAX_STEP {
            MAX_STEP as int
        } else if c <= MIN_STEP {
            MIN_STEP + 1
        } else {
            c
        }
    }
}

/// How one comment's scroll state moves in one tick, given the fitted
/// width, the font, the two speed factors, the overlap policy, the lane
/// count and `lanes`, the per-tick lane table as it stands when the
/// comment is reached (see `lanes_after`): a skipped comment stays
/// skipped; a scheduled one keeps its lane and step and advances unless
/// culled; an unscheduled due one is skipped only when the policy is on
/// and no lane of the table admits it, is placed in the first
/// admissible lane with a step below that lane's ceiling, or, with the
/// policy off and no lane admissible, is force-placed at minimum step
/// into the last lane of minimal trailing edge.
#[verifier::opaque]
pub open spec fn scroll_transition(
    oldc: Danmaku,
    newc: Danmaku,
    pos: int,
    delay: int,
    w: int,
    font: int,
    speed: int,
    ospeed: int,
    no_overlap: bool,
    nlanes: int,
    lanes: Seq<Lane>,
) -> bool {
    let ticks = ticks_of(oldc.time as int, delay, pos);
    match oldc.status {
        Status::Skipped => newc.status == Status::Skipped,
        Status::Scheduled(s) => match newc.status {
            Status::Scheduled(s2) => {
                s2.row == s.row && s2.step == s.step && if is_culled(
                    s.x as int,
                    oldc.count as int,
                    font,
                ) {
                    s2.x == s.x
                } else {
                    s2.x == s.x - advance_amt(w, s.step as int, speed, ospeed)
                }
            },
            _ => false,
        },
        Status::Unscheduled => match newc.status {
            Status::Skipped => no_overlap && forall|k: int|
                0 <= k < lanes.len() ==> !lane_admissible(#[trigger] lanes[k], ticks, w),
            Status::Scheduled(s2) => {
                &&& MIN_STEP <= s2.step < MAX_STEP
                &&& s2.row < nlanes
                &&& s2.row < lanes.len()
                &&& if is_culled(fresh_x(w, ticks, s2.step as int), oldc.count as int, font) {
                    s2.x == fresh_x(w, ticks, s2.step as int)
                } else {
                    s2.x == fresh_x(w, ticks, s2.step as int) - advance_amt(
                        w,
                        s2.step as int,
                        speed,
                        ospeed,
                    )
                }
                &&& if lane_admissible(lanes[s2.row as int], ticks, w) {
                    (forall|k: int|
                        0 <= k < s2.row ==> !lane_admissible(#[trigger] lanes[k], ticks, w))
                        && s2.step < step_ceiling(lanes[s2.row as int], ticks, w)
                } else {
                    &&& !no_overlap
                    &&& s2.step == MIN_STEP
                    &&& forall|k: int|
                        0 <= k < lanes.len() ==> lanes[s2.row as int].end <= #[trigger] lanes[k].end
                    &&& forall|k: int|
                        s2.row < k < lanes.len() ==> lanes[s2.row as int].end
                            < #[trigger] lanes[k].end
                    &&& forall|k: int|
                        0 <= k < lanes.len() ==> !lane_admissible(#[trigger] lanes[k], ticks, w)
                }
            },
            Status::Unscheduled => false,
        },
    }
}

/// The per-comment contract of one `render` call: untouched when
/// blocked or not yet due, else moved as `scroll_transition` says
/// against the lane table standing when the comment is reached.
#[verifier::opaque]
pub open spec fn handled(
    oldc: Danmaku,
    newc: Danmaku,
    pos: int,
    delay: int,
    w: int,
    font: int,
    speed: int,
    ospeed: int,
    no_overlap: bool,
    nlanes: int,
    lanes: Seq<Lane>,
) -> bool {
    if oldc.blocked || oldc.time + delay > pos {
        newc.status == oldc.status
    } else {
        scroll_transition(
            oldc,
            newc,
            pos,
            delay,
            w,
            font,
            speed,
            ospeed,
            no_overlap,
            nlanes,
            lanes,
        )
    }
}

/// A placement can only have come from a comment that is unblocked, due,
/// and was not skipped when the tick began.
pub open spec fn emitted_from(c: Danmaku, pos: int, delay: int, p: Placement) -> bool {
    &&& !c.blocked
    &&& c.time + delay <= pos
    &&& !(c.status is Skipped)
    &&& p.message == c.message
    &&& p.r == c.r
    &&& p.g == c.g
    &&& p.b == c.b
}

/// Whether one tick draws this comment: it must be unblocked, due, not
/// skipped, and its current position (fresh or carried) must not yet be
/// fully past the left edge.
#[verifier::opaque]
pub open spec fn emits_one(
    oldc: Danmaku,
    newc: Danmaku,
    pos: int,
    delay: int,
    w: int,
    font: int,
) -> bool {
    if oldc.blocked || oldc.time + delay > pos {
        false
    } else {
        match oldc.status {
            Status::Skipped => false,
            Status::Scheduled(s) => !is_culled(s.x as int, oldc.count as int, font),
            Status::Unscheduled => match newc.status {
                Status::Scheduled(s2) => !is_culled(
                    fresh_x(w, ticks_of(oldc.time as int, delay, pos), s2.step as int),
                    oldc.count as int,
                    font,
                ),
                _ => false,
            },
        }
    }
}

/// How many comments one tick draws, read off the before and after
/// states index by index.
pub open spec fn emit_count(
    olds: Seq<Danmaku>,
    news: Seq<Danmaku>,
    pos: int,
    delay: int,
    w: int,
    font: int,
) -> int
    decreases olds.len(),
{
    if olds.len() == 0 || news.len() != olds.len() {
        0
    } else {
        emit_count(olds.drop_last(), news.drop_last(), pos, delay, w, font) + if emits_one(
            olds.last(),
            news.last(),
            pos,
            delay,
            w,
            font,
        ) {
            1int
        } else {
            0int
        }
    }
}

/// Indices that draw nothing do not change the emit count.
proof fn lemma_emit_count_frozen(
    olds: Seq<Danmaku>,
    news: Seq<Danmaku>,
    pos: int,
    delay: int,
    w: int,
    font: int,
    i: int,
    j: int,
)
    requires
        news.len() == olds.len(),
        0 <= i <= j <= olds.len(),
        forall|k: int| i <= k < j ==> !emits_one(#[trigger] olds[k], news[k], pos, delay, w, font),
    ensures
        emit_count(olds.take(j), news.take(j), pos, delay, w, font) == emit_count(
            olds.take(i),
            news.take(i),
            pos,
            delay,
            w,
            font,
        ),
    decreases j - i,
{
    if i < j {
        assert(olds.take(j).drop_last() =~= olds.take(j - 1));
        assert(news.take(j).drop_last() =~= news.take(j - 1));
        assert(olds.take(j).last() == olds[j - 1]);
        assert(news.take(j).last() == news[j - 1]);
        lemma_emit_count_frozen(olds, news, pos, delay, w, font, i, j - 1);
    }
}

/// The lane table every tick starts from: each lane cleared, at
/// minimum step.
pub open spec fn init_lanes(nlanes: int) -> Seq<Lane> {
    Seq::new(nlanes as nat, |k: int| Lane { end: 0, step: MIN_STEP })
}

/// What one handled comment does to the lane table.  Only a drawn
/// comment touches it, and only its own lane, and only under the
/// rate-normalized dominance rule: the advanced trailing edge
/// supersedes the stored pair exactly when `new_end / step` exceeds
/// `end / lane.step` (cross-multiplied, both steps positive) — a
/// faster, further-reaching occupant becomes the lane's authoritative
/// boundary.
pub open spec fn lane_fold_step(
    lanes: Seq<Lane>,
    oldc: Danmaku,
    newc: Danmaku,
    pos: int,
    delay: int,
    w: int,
    font: int,
) -> Seq<Lane> {
    if !emits_one(oldc, newc, pos, delay, w, font) {
        lanes
    } else {
        match newc.status {
            Status::Scheduled(s2) => {
                if s2.row < lanes.len() {
                    let l = lanes[s2.row as int];
                    let new_end = s2.x as int + extent_of(oldc.count as int, font);
                    if l.step as int * new_end > s2.step as int * (l.end as int) {
                        lanes.update(s2.row as int, Lane { end: new_end as i128, step: s2.step })
                    } else {
                        lanes
                    }
                } else {
                    lanes
                }
            },
            _ => lanes,
        }
    }
}

/// The lane table after the tick has handled a prefix of the comments:
/// the fresh table folded through every before/after pair of the
/// prefix.  Already-scheduled comments contribute their live position
/// exactly as freshly placed ones do.
pub open spec fn lanes_after(
    olds: Seq<Danmaku>,
    news: Seq<Danmaku>,
    pos: int,
    delay: int,
    w: int,
    font: int,
    nlanes: int,
) -> Seq<Lane>
    decreases olds.len(),
{
    if olds.len() == 0 || news.len() != olds.len() {
        init_lanes(nlanes)
    } else {
        lane_fold_step(
            lanes_after(olds.drop_last(), news.drop_last(), pos, delay, w, font, nlanes),
            olds.last(),
            news.last(),
            pos,
            delay,
            w,
            font,
        )
    }
}

/// The folded lane table always has exactly the lane count.
pub proof fn lemma_lanes_after_len(
    olds: Seq<Danmaku>,
    news: Seq<Danmaku>,
    pos: int,
    delay: int,
    w: int,
    font: int,
    nlanes: int,
)
    requires
        nlanes >= 0,
    ensures
        lanes_after(olds, news, pos, delay, w, font, nlanes).len() == nlanes,
    decreases olds.len(),
{
    if olds.len() != 0 && news.len() == olds.len() {
        lemma_lanes_after_len(olds.drop_last(), news.drop_last(), pos, delay, w, font, nlanes);
    }
}

/// What the placement of a drawn comment holds: the comment's text and
/// color, the option font, the stored (for a carried comment) or fresh
/// (for a newly placed one) horizontal position, and the vertical
/// position of its lane.
#[verifier::opaque]
pub open spec fn placement_matches(
    p: Placement,
    oldc: Danmaku,
    newc: Danmaku,
    pos: int,
    delay: int,
    w: int,
    font: int,
) -> bool {
    &&& p.message == oldc.message
    &&& p.r == oldc.r
    &&& p.g == oldc.g
    &&& p.b == oldc.b
    &&& p.font_size as int == font
    &&& match oldc.status {
        Status::Scheduled(s) => p.x == s.x && p.y as int == s.row as int * (font + font / 10),
        Status::Unscheduled => match newc.status {
            Status::Scheduled(s2) => p.x as int == fresh_x(
                w,
                ticks_of(oldc.time as int, delay, pos),
                s2.step as int,
            ) && p.y as int == s2.row as int * (font + font / 10),
            _ => false,
        },
        Status::Skipped => false,
    }
}

/// A comment skipped when the tick began stays skipped and can never
/// source a placement, whatever the tick does.
pub proof fn lemma_skipped_stays_dark(
    oldc: Danmaku,
    newc: Danmaku,
    pos: int,
    delay: int,
    w: int,
    font: int,
    speed: int,
    ospeed: int,
    no_overlap: bool,
    nlanes: int,
    lanes: Seq<Lane>,
    p: Placement,
)
    requires
        oldc.status is Skipped,
        handled(oldc, newc, pos, delay, w, font, speed, ospeed, no_overlap, nlanes, lanes),
    ensures
        newc.status is Skipped,
        !emitted_from(oldc, pos, delay, p),
        !emits_one(oldc, newc, pos, delay, w, font),
{
    reveal(handled);
    reveal(scroll_transition);
    reveal(emits_one);
}

/// Some comment of `s` is an admissible origin for placement `p`.
pub open spec fn placement_sourced(s: Seq<Danmaku>, pos: int, delay: int, p: Placement) -> bool {
    exists|i: int| 0 <= i < s.len() && emitted_from(#[trigger] s[i], pos, delay, p)
}

/// `0 <= a <= am` and `0 <= b <= bm` bound the product by `am * bm`.
proof fn lemma_mul_le(a: int, b: int, am: int, bm: int)
    requires
        0 <= a <= am,
        0 <= b <= bm,
    ensures
        0 <= a * b <= am * bm,
{
    assert(0 <= a * b <= am * bm) by (nonlinear_arith)
        requires
            0 <= a <= am,
            0 <= b <= bm,
    ;
}

/// Integer multiplication reassociates.
proof fn lemma_mul_assoc(a: int, b: int, c: int)
    ensures
        a * (b * c) == a * b * c,
{
    assert(a * (b * c) == a * b * c) by (nonlinear_arith);
}

/// `0 <= a <= am` and `|b| <= bm` bound the product by `am * bm` in
/// absolute value.
proof fn lemma_mul_abs(a: int, b: int, am: int, bm: int)
    requires
        0 <= a <= am,
        -bm <= b <= bm,
    ensures
        -(am * bm) <= a * b <= am * bm,
{
    assert(-(am * bm) <= a * b <= am * bm) by (nonlinear_arith)
        requires
            0 <= a <= am,
            -bm <= b <= bm,
    ;
}

/// Fit 1920x1080 to the host's reported aspect.
pub fn fit_viewport(osd_w: u32, osd_h: u32) -> (r: (u32, u32))
    ensures
        r.0 == fit_w(osd_w as int, osd_h as int),
        r.1 == fit_h(osd_w as int, osd_h as int),
        r.0 <= 1920,
        r.1 <= 1080,
{
    if osd_w == 0 || osd_h == 0 {
        return (1920, 1080);
    }
    let a: u64 = 1920 * (osd_h as u64);
    let b: u64 = 1080 * (osd_w as u64);
    if a > b {
        let w = (b / (osd_h as u64)) as u32;
        proof {
            assert(b / (osd_h as u64) <= 1920) by (nonlinear_arith)
                requires
                    b < a,
                    a == 1920 * (osd_h as u64),
                    b == 1080 * (osd_w as u64),
                    osd_h as u64 >= 1,
            ;
        }
        (w, 1080)
    } else if a < b {
        let h = (a / (osd_w as u64)) as u32;
        proof {
            assert(a / (osd_w as u64) <= 1080) by (nonlinear_arith)
                requires
                    a < b,
                    a == 1920 * (osd_h as u64),
                    b == 1080 * (osd_w as u64),
                    osd_w as u64 >= 1,
            ;
        }
        (1920, h)
    } else {
        (1920, 1080)
    }
}

/// The lane count for a viewport, at least one.
pub fn lane_count(h: u32, reserved: u16, font: u16) -> (r: usize)
    requires
        h <= 1080,
        reserved <= 999,
        1 <= font,
    ensures
        r == lane_count_spec(h as int, reserved as int, font as int),
        1 <= r <= ROW_MAX,
{
    proof {
        lemma_mul_le(h as int, 1000 - reserved as int, 1080, 1000);
    }
    let num: u64 = (h as u64) * ((1000 - reserved) as u64);
    let den: u64 = 1000 * ((font as u64) + (font as u64) / 10);
    let c = num / den;
    proof {
        assert(num / den <= ROW_MAX) by (nonlinear_arith)
            requires
                num <= 1080 * 1000,
                den >= 1000,
        ;
    }
    if c == 0 {
        1
    } else {
        c as usize
    }
}

/// The first lane that admits a candidate `ticks` after its due time,
/// if any lane does.
pub fn choose_lane(lanes: &Vec<Lane>, ticks: i64, w: u32) -> (r: Option<usize>)
    requires
        wf_lanes(lanes@),
        0 <= ticks <= TICKS_MAX,
        w <= 1920,
    ensures
        match r {
            Some(l) => l < lanes@.len() && lane_admissible(lanes@[l as int], ticks as int, w as int)
                && forall|k: int|
                0 <= k < l ==> !lane_admissible(#[trigger] lanes@[k], ticks as int, w as int),
            None => forall|k: int|
                0 <= k < lanes@.len() ==> !lane_admissible(
                    #[trigger] lanes@[k],
                    ticks as int,
                    w as int,
                ),
        },
{
    proof {
        lemma_mul_le(ticks as int, MIN_STEP as int, TICKS_MAX as int, MIN_STEP as int);
        assert(0 <= (ticks as int) * (MIN_STEP as int) <= 2_400_000_000_000_000);
    }
    let inner: i128 = STEP_DEN - (ticks as i128) * (MIN_STEP as i128);
    proof {
        lemma_mul_abs(w as int, inner as int, 1920, 3_000_000_000_000_000);
    }
    let bound: i128 = (w as i128) * inner;
    let mut k: usize = 0;
    while k < lanes.len()
        invariant
            k <= lanes@.len(),
            bound == (w as int) * (STEP_DEN - (ticks as int) * (MIN_STEP as int)),
            forall|k2: int|
                0 <= k2 < k ==> !lane_admissible(#[trigger] lanes@[k2], ticks as int, w as int),
        decreases lanes@.len() - k,
    {
        if lanes[k].end < bound {
            return Some(k);
        }
        k += 1;
    }
    None
}

/// The last lane whose `end` is minimal.
pub fn min_end_lane(lanes: &Vec<Lane>) -> (r: usize)
    requires
        lanes@.len() >= 1,
    ensures
        r < lanes@.len(),
        forall|k: int| 0 <= k < lanes@.len() ==> lanes@[r as int].end <= #[trigger] lanes@[k].end,
        forall|k: int| r < k < lanes@.len() ==> lanes@[r as int].end < #[trigger] lanes@[k].end,
{
    let mut best: usize = 0;
    let mut k: usize = 1;
    while k < lanes.len()
        invariant
            best < k <= lanes@.len(),
            forall|k2: int| 0 <= k2 < k ==> lanes@[best as int].end <= #[trigger] lanes@[k2].end,
            forall|k2: int| best < k2 < k ==> lanes@[best as int].end < #[trigger] lanes@[k2].end,
        decreases lanes@.len() - k,
    {
        if lanes[k].end <= lanes[best].end {
            best = k;
        }
        k += 1;
    }
    best
}

/// Does the lane admit a candidate `ticks` after its due time?  It
/// rejects exactly when its occupant's trailing edge has not surely
/// cleared the candidate's start position at minimum speed.
pub fn admits(l: Lane, ticks: i64, w: u32) -> (r: bool)
    requires
        wf_lane(l),
        0 <= ticks <= TICKS_MAX,
        w <= 1920,
    ensures
        r == lane_admissible(l, ticks as int, w as int),
{
    proof {
        lemma_mul_le(ticks as int, MIN_STEP as int, TICKS_MAX as int, MIN_STEP as int);
        assert(0 <= (ticks as int) * (MIN_STEP as int) <= 2_400_000_000_000_000);
    }
    let inner: i128 = STEP_DEN - (ticks as i128) * (MIN_STEP as i128);
    proof {
        lemma_mul_abs(w as int, inner as int, 1920, 3_000_000_000_000_000);
    }
    let bound: i128 = (w as i128) * inner;
    l.end < bound
}

/// The step an accepting lane hands a fresh candidate: drawn from the
/// admissible band, always strictly below the ceiling the lane's
/// occupant imposes.
pub fn place_step(l: Lane, ticks: i64, w: u32) -> (r: u32)
    requires
        wf_lane(l),
        0 <= ticks <= TICKS_MAX,
        w <= 1920,
    ensures
        MIN_STEP <= r < step_ceiling(l, ticks as int, w as int),
        r < MAX_STEP,
{
    let hi = ceiling(l, ticks, w);
    draw_step(MIN_STEP, hi)
}

/// The exclusive step ceiling a lane imposes on a fresh candidate.
pub fn ceiling(l: Lane, ticks: i64, w: u32) -> (r: u32)
    requires
        wf_lane(l),
        0 <= ticks <= TICKS_MAX,
        w <= 1920,
    ensures
        r == step_ceiling(l, ticks as int, w as int),
        MIN_STEP < r <= MAX_STEP,
{
    if l.end <= 0 {
        return MAX_STEP;
    }
    proof {
        lemma_mul_le(w as int, l.step as int, 1920, MAX_STEP as int);
    }
    let ws: i128 = (w as i128) * (l.step as i128);
    let num: i128 = STEP_DEN * ws;
    proof {
        lemma_mul_le(ticks as int, ws as int, TICKS_MAX as int, 1920 * (MAX_STEP as int));
    }
    let tws: i128 = (ticks as i128) * ws;
    let den: i128 = tws + l.end;
    let c = num / den;
    proof {
        lemma_mul_assoc(STEP_DEN as int, w as int, l.step as int);
        lemma_mul_assoc(ticks as int, w as int, l.step as int);
        assert(den >= 1);
        assert(c >= 0) by (nonlinear_arith)
            requires
                den >= 1,
                num >= 0,
                c == num / den,
        ;
    }
    if c >= MAX_STEP as i128 {
        MAX_STEP
    } else if c <= MIN_STEP as i128 {
        MIN_STEP + 1
    } else {
        c as u32
    }
}

/// Place one newly due comment against the lane table: the first
/// admissible lane hands it a step below that lane's ceiling; with no
/// admissible lane the comment is dropped under the no-overlap policy,
/// else force-placed into the lane with the smallest trailing edge at
/// minimum speed.  The start position follows from the elapsed ticks
/// and the chosen step.
pub fn schedule_unscheduled(lanes: &Vec<Lane>, ticks: i64, w: u32, no_overlap: bool) -> (r: Option<
    StatusInner,
>)
    requires
        wf_lanes(lanes@),
        lanes@.len() >= 1,
        0 <= ticks <= TICKS_MAX,
        w <= 1920,
    ensures
        match r {
            None => no_overlap && forall|k: int|
                0 <= k < lanes@.len() ==> !lane_admissible(#[trigger] lanes@[k], ticks as int, w as int),
            Some(s) => {
                &&& s.x == fresh_x(w as int, ticks as int, s.step as int)
                &&& -X_BOUND <= s.x <= X_BOUND
                &&& MIN_STEP <= s.step < MAX_STEP
                &&& s.row < lanes@.len()
                &&& if lane_admissible(lanes@[s.row as int], ticks as int, w as int) {
                    (forall|k: int|
                        0 <= k < s.row ==> !lane_admissible(
                            #[trigger] lanes@[k],
                            ticks as int,
                            w as int,
                        )) && s.step < step_ceiling(lanes@[s.row as int], ticks as int, w as int)
                } else {
                    &&& !no_overlap
                    &&& s.step == MIN_STEP
                    &&& forall|k: int|
                        0 <= k < lanes@.len() ==> lanes@[s.row as int].end
                            <= #[trigger] lanes@[k].end
                    &&& forall|k: int|
                        s.row < k < lanes@.len() ==> lanes@[s.row as int].end
                            < #[trigger] lanes@[k].end
                    &&& forall|k: int|
                        0 <= k < lanes@.len() ==> !lane_admissible(
                            #[trigger] lanes@[k],
                            ticks as int,
                            w as int,
                        )
                }
            },
        },
{
    match choose_lane(lanes, ticks, w) {
        Some(row) => {
            let step = place_step(lanes[row], ticks, w);
            let x = fresh_position(w, ticks, step);
            Some(StatusInner { x, row, step })
        },
        None => {
            if no_overlap {
                return None;
            }
            let row = min_end_lane(lanes);
            let step = MIN_STEP;
            let x = fresh_position(w, ticks, step);
            Some(StatusInner { x, row, step })
        },
    }
}

/// Reset every comment's scroll state to `Unscheduled`, as a playback
/// discontinuity demands; skipped comments are reset like any other.
pub fn reset_status(comments: &mut Vec<Danmaku>)
    ensures
        final(comments)@.len() == old(comments)@.len(),
        forall|i: int|
            0 <= i < old(comments)@.len() ==> same_core(
                #[trigger] final(comments)@[i],
                old(comments)@[i],
            ) && final(comments)@[i].status == Status::Unscheduled,
{
    let mut i: usize = 0;
    while i < comments.len()
        invariant
            i <= comments@.len(),
            comments@.len() == old(comments)@.len(),
            forall|k: int|
                0 <= k < i ==> same_core(#[trigger] comments@[k], old(comments)@[k])
                    && comments@[k].status == Status::Unscheduled,
            forall|k: int| i <= k < comments@.len() ==> comments@[k] == old(comments)@[k],
        decreases comments@.len() - i,
    {
        let c = elem_mut(comments, i);
        c.status = Status::Unscheduled;
        i += 1;
    }
}

/// A mutable borrow of one element of the comment vector.
fn elem_mut(v: &mut Vec<Danmaku>, i: usize) -> (element: &mut Danmaku)
    requires
        i < old(v).len(),
    ensures
        *element == old(v)@[i as int],
        final(v)@ == old(v)@.update(i as int, *final(element)),
{
    &mut v[i]
}

/// Write one comment's scroll state, leaving everything else alone.
fn set_status(v: &mut Vec<Danmaku>, i: usize, st: Status)
    requires
        i < old(v).len(),
    ensures
        final(v)@.len() == old(v)@.len(),
        forall|k: int| 0 <= k < old(v)@.len() && k != i ==> final(v)@[k] == old(v)@[k],
        same_core(final(v)@[i as int], old(v)@[i as int]),
        final(v)@[i as int].status == st,
{
    let c = elem_mut(v, i);
    c.status = st;
}

/// Every slot below the emit count of a prefix is the rank of exactly
/// one drawing pair of that prefix.
proof fn lemma_rank_witness(
    olds: Seq<Danmaku>,
    news: Seq<Danmaku>,
    pos: int,
    delay: int,
    w: int,
    font: int,
    n: int,
    j: int,
)
    requires
        news.len() == olds.len(),
        0 <= n <= olds.len(),
        0 <= j < emit_count(olds.take(n), news.take(n), pos, delay, w, font),
    ensures
        exists|i: int|
            0 <= i < n && emits_one(#[trigger] olds[i], news[i], pos, delay, w, font)
                && emit_count(olds.take(i), news.take(i), pos, delay, w, font) == j,
    decreases n,
{
    assert(n > 0);
    lemma_prefix_step(olds, news, n - 1);
    let prev = emit_count(olds.take(n - 1), news.take(n - 1), pos, delay, w, font);
    if emits_one(olds[n - 1], news[n - 1], pos, delay, w, font) && j == prev {
        assert(emits_one(olds[n - 1], news[n - 1], pos, delay, w, font) && emit_count(
            olds.take(n - 1),
            news.take(n - 1),
            pos,
            delay,
            w,
            font,
        ) == j);
    } else {
        lemma_rank_witness(olds, news, pos, delay, w, font, n - 1, j);
    }
}

/// How `take(i + 1)` decomposes, on the before and after sequences at
/// once: one step of every per-prefix fold the tick's proofs walk.
proof fn lemma_prefix_step(olds: Seq<Danmaku>, news: Seq<Danmaku>, i: int)
    requires
        0 <= i < olds.len(),
        0 <= i < news.len(),
    ensures
        olds.take(i + 1).drop_last() == olds.take(i),
        news.take(i + 1).drop_last() == news.take(i),
        olds.take(i + 1).last() == olds[i],
        news.take(i + 1).last() == news[i],
{
    assert(olds.take(i + 1).drop_last() =~= olds.take(i));
    assert(news.take(i + 1).drop_last() =~= news.take(i));
}

/// One tick of the scheduler.
///
/// Walks the sorted comments that are due at `pos` (shifted by `delay`),
/// rebuilds the lane table, places the newly due ones, advances the
/// live ones, and returns the visible placements in comment order.
/// Every comment's move obeys `handled` against the lane table folded
/// over the prefix before it (`lanes_after`): a fresh comment is
/// skipped only when the policy is on and no lane admits it, else goes
/// to the first admissible lane below that lane's step ceiling, else is
/// force-placed into the emptiest lane.  The result holds exactly the
/// drawn comments (`emit_count`), in comment order, each placement
/// carrying its comment's text, color, font, lane position and stored
/// or fresh horizontal position (`placement_matches`); a placement only
/// ever comes from an unblocked, due, not-skipped comment.
#[verifier::loop_isolation(false)]
#[verifier::rlimit(100)]
pub fn render(
    comments: &mut Vec<Danmaku>,
    pos: i64,
    delay: i64,
    speed: u32,
    options: &Options,
    osd_width: u32,
    osd_height: u32,
) -> (out: Vec<Placement>)
    requires
        wf_comments(old(comments)@),
        sorted_by_time(old(comments)@),
        -TIME_MAX <= pos <= TIME_MAX,
        -DELAY_MAX <= delay <= DELAY_MAX,
        options.wf(),
    ensures
        final(comments)@.len() == old(comments)@.len(),
        wf_comments(final(comments)@),
        sorted_by_time(final(comments)@),
        forall|i: int|
            0 <= i < old(comments)@.len() ==> same_core(
                #[trigger] final(comments)@[i],
                old(comments)@[i],
            ),
        forall|i: int|
            0 <= i < old(comments)@.len() ==> handled(
                #[trigger] old(comments)@[i],
                final(comments)@[i],
                pos as int,
                delay as int,
                fit_w(osd_width as int, osd_height as int),
                options.font_size as int,
                speed as int,
                options.speed as int,
                options.no_overlap,
                lane_count_spec(
                    fit_h(osd_width as int, osd_height as int),
                    options.reserved_space as int,
                    options.font_size as int,
                ),
                lanes_after(
                    old(comments)@.take(i),
                    final(comments)@.take(i),
                    pos as int,
                    delay as int,
                    fit_w(osd_width as int, osd_height as int),
                    options.font_size as int,
                    lane_count_spec(
                        fit_h(osd_width as int, osd_height as int),
                        options.reserved_space as int,
                        options.font_size as int,
                    ),
                ),
            ),
        forall|i: int|
            0 <= i < old(comments)@.len() && emits_one(
                #[trigger] old(comments)@[i],
                final(comments)@[i],
                pos as int,
                delay as int,
                fit_w(osd_width as int, osd_height as int),
                options.font_size as int,
            ) ==> {
                let r = emit_count(
                    old(comments)@.take(i),
                    final(comments)@.take(i),
                    pos as int,
                    delay as int,
                    fit_w(osd_width as int, osd_height as int),
                    options.font_size as int,
                );
                0 <= r < out@.len() && placement_matches(
                    out@[r],
                    old(comments)@[i],
                    final(comments)@[i],
                    pos as int,
                    delay as int,
                    fit_w(osd_width as int, osd_height as int),
                    options.font_size as int,
                )
            },
        forall|j: int|
            0 <= j < out@.len() ==> placement_sourced(
                old(comments)@,
                pos as int,
                delay as int,
                #[trigger] out@[j],
            ),
        out@.len() == emit_count(
            old(comments)@,
            final(comments)@,
            pos as int,
            delay as int,
            fit_w(osd_width as int, osd_height as int),
            options.font_size as int,
        ),
{
    let (w, h) = fit_viewport(osd_width, osd_height);
    let font = options.font_size;
    let spacing: u16 = font / 10;
    let nlanes = lane_count(h, options.reserved_space, font);
    let ghost old_seq = comments@;

    let mut lanes: Vec<Lane> = Vec::new();
    let mut li: usize = 0;
    while li < nlanes
        invariant
            li <= nlanes,
            lanes@.len() == li,
            forall|k: int| 0 <= k < li ==> #[trigger] lanes@[k] == (Lane { end: 0, step: MIN_STEP }),
            wf_lanes(lanes@),
        decreases nlanes - li,
    {
        lanes.push(Lane { end: 0, step: MIN_STEP });
        li += 1;
    }

    let mut out: Vec<Placement> = Vec::new();
    let n = comments.len();
    proof {
        assert(lanes@ =~= lanes_after(
            old_seq.take(0),
            old_seq.take(0),
            pos as int,
            delay as int,
            w as int,
            font as int,
            nlanes as int,
        ));
    }
    let mut i: usize = 0;
    let mut done = false;
    while i < n && !done
        invariant
            i <= n,
            done ==> i < n && !old_seq[i as int].blocked && old_seq[i as int].time + delay > pos,
            n == old_seq.len(),
            comments@.len() == n,
            lanes@.len() == nlanes,
            wf_lanes(lanes@),
            forall|k: int| i <= k < n ==> comments@[k] == old_seq[k],
            lanes@ == lanes_after(
                old_seq.take(i as int),
                comments@.take(i as int),
                pos as int,
                delay as int,
                w as int,
                font as int,
                nlanes as int,
            ),
            forall|k: int|
                0 <= k < i ==> same_core(#[trigger] comments@[k], old_seq[k]) && wf_comment(
                    comments@[k],
                ) && handled(
                    old_seq[k],
                    comments@[k],
                    pos as int,
                    delay as int,
                    w as int,
                    font as int,
                    speed as int,
                    options.speed as int,
                    options.no_overlap,
                    nlanes as int,
                    lanes_after(
                        old_seq.take(k),
                        comments@.take(k),
                        pos as int,
                        delay as int,
                        w as int,
                        font as int,
                        nlanes as int,
                    ),
                ),
            forall|k: int|
                0 <= k < i && emits_one(
                    #[trigger] old_seq[k],
                    comments@[k],
                    pos as int,
                    delay as int,
                    w as int,
                    font as int,
                ) ==> {
                    let r = emit_count(
                        old_seq.take(k),
                        comments@.take(k),
                        pos as int,
                        delay as int,
                        w as int,
                        font as int,
                    );
                    0 <= r < out@.len() && placement_matches(
                        out@[r],
                        old_seq[k],
                        comments@[k],
                        pos as int,
                        delay as int,
                        w as int,
                        font as int,
                    )
                },
            out@.len() == emit_count(
                old_seq.take(i as int),
                comments@.take(i as int),
                pos as int,
                delay as int,
                w as int,
                font as int,
            ),
        decreases n - i + (if done { 0int } else { 1int }),
    {
        if comments[i].blocked {
            proof {
                reveal(handled);
                reveal(emits_one);
                lemma_prefix_step(old_seq, comments@, i as int);
                assert(!emits_one(
                    old_seq[i as int],
                    comments@[i as int],
                    pos as int,
                    delay as int,
                    w as int,
                    font as int,
                ));
            }
            i += 1;
            continue;
        }
        let time = comments[i].time;
        let due: i64 = time + delay;
        if due > pos {
            done = true;
            continue;
        }
        let ticks: i64 = (pos - due) / INTERVAL_MS;
        proof {
            assert(0 <= ticks <= TICKS_MAX);
        }
        let st = comments[i].status;
        let current: StatusInner;
        match st {
            Status::Skipped => {
                proof {
                    reveal(handled);
                    reveal(scroll_transition);
                    reveal(emits_one);
                    lemma_prefix_step(old_seq, comments@, i as int);
                    assert(!emits_one(
                        old_seq[i as int],
                        comments@[i as int],
                        pos as int,
                        delay as int,
                        w as int,
                        font as int,
                    ));
                }
                i += 1;
                continue;
            },
            Status::Scheduled(s) => {
                current = s;
            },
            Status::Unscheduled => {
                match schedule_unscheduled(&lanes, ticks, w, options.no_overlap) {
                    Some(s) => {
                        current = s;
                    },
                    None => {
                        let ghost precs = comments@;
                        set_status(comments, i, Status::Skipped);
                        proof {
                            reveal(handled);
                            reveal(scroll_transition);
                            reveal(emits_one);
                            assert forall|k2: int| 0 <= k2 <= i implies comments@.take(k2)
                                == precs.take(k2) by {
                                assert(comments@.take(k2) =~= precs.take(k2));
                            }
                            lemma_prefix_step(old_seq, comments@, i as int);
                            assert(!emits_one(
                                old_seq[i as int],
                                comments@[i as int],
                                pos as int,
                                delay as int,
                                w as int,
                                font as int,
                            ));
                        }
                        i += 1;
                        continue;
                    },
                }
            },
        }
        let count = comments[i].count;
        proof {
            lemma_mul_le(count as int, font as int, usize::MAX as int, u16::MAX as int);
            lemma_mul_le(
                (count as int) * (font as int) + (spacing as int),
                STEP_DEN as int,
                usize::MAX as int * u16::MAX as int + u16::MAX as int,
                STEP_DEN as int,
            );
        }
        let extent: i128 = ((count as i128) * (font as i128) + (spacing as i128)) * STEP_DEN;
        proof {
            assert(extent == crate::sched::extent_of(count as int, font as int));
        }
        if current.x + extent <= 0 {
            let ghost precs = comments@;
            set_status(comments, i, Status::Scheduled(current));
            proof {
                reveal(handled);
                reveal(scroll_transition);
                reveal(emits_one);
                assert forall|k2: int| 0 <= k2 <= i implies comments@.take(k2) == precs.take(
                    k2,
                ) by {
                    assert(comments@.take(k2) =~= precs.take(k2));
                }
                lemma_prefix_step(old_seq, comments@, i as int);
                assert(!emits_one(old_seq[i as int], comments@[i as int], pos as int, delay as int, w as int, font as int));
            }
            i += 1;
            continue;
        }
        proof {
            assert(current.row < ROW_MAX);
            lemma_mul_le(current.row as int, (font as int) + (spacing as int), ROW_MAX as int, 131070);
        }
        let y: i64 = (current.row as i64) * ((font as i64) + (spacing as i64));
        let ghost prev_out = out@;
        out.push(
            Placement {
                x: current.x,
                y,
                r: comments[i].r,
                g: comments[i].g,
                b: comments[i].b,
                message: comments[i].message.clone(),
                font_size: font,
            },
        );
        let adv = advance(w, current.step, speed, options.speed);
        let newx = current.x - adv;
        proof {
            assert(newx >= -X_BOUND);
            assert(newx <= X_BOUND);
        }
        let row = current.row;
        let step = current.step;
        let ghost precs = comments@;
        let ghost pre_lanes = lanes@;
        set_status(comments, i, Status::Scheduled(StatusInner { x: newx, row, step }));
        if row < lanes.len() {
            let lane = lanes[row];
            let new_end = newx + extent;
            proof {
                lemma_mul_abs(lane.step as int, new_end as int, MAX_STEP as int, END_BOUND as int);
                lemma_mul_abs(step as int, lane.end as int, MAX_STEP as int, END_BOUND as int);
            }
            if (lane.step as i128) * new_end > (step as i128) * lane.end {
                lanes.set(row, Lane { end: new_end, step });
            }
        }
        proof {
            reveal(handled);
            reveal(scroll_transition);
            reveal(emits_one);
            reveal(placement_matches);
            assert forall|k2: int| 0 <= k2 <= i implies comments@.take(k2) == precs.take(k2) by {
                assert(comments@.take(k2) =~= precs.take(k2));
            }
            lemma_prefix_step(old_seq, comments@, i as int);
            assert(emits_one(old_seq[i as int], comments@[i as int], pos as int, delay as int, w as int, font as int));
            assert(lanes@ =~= lane_fold_step(
                pre_lanes,
                old_seq[i as int],
                comments@[i as int],
                pos as int,
                delay as int,
                w as int,
                font as int,
            ));
            assert(placement_matches(
                out@[prev_out.len() as int],
                old_seq[i as int],
                comments@[i as int],
                pos as int,
                delay as int,
                w as int,
                font as int,
            ));
        }
        i += 1;
    }
    proof {
        reveal(handled);
        reveal(emits_one);
        assert forall|k: int| i <= k < n implies same_core(#[trigger] comments@[k], old_seq[k])
            && wf_comment(comments@[k]) && handled(
            old_seq[k],
            comments@[k],
            pos as int,
            delay as int,
            w as int,
            font as int,
            speed as int,
            options.speed as int,
            options.no_overlap,
            nlanes as int,
            lanes_after(
                old_seq.take(k),
                comments@.take(k),
                pos as int,
                delay as int,
                w as int,
                font as int,
                nlanes as int,
            ),
        ) by {
            assert(comments@[k] == old_seq[k]);
            if done && !old_seq[k].blocked {
                assert(old_seq[k].time >= old_seq[i as int].time);
            }
        }
        assert forall|a: int, b: int| 0 <= a < b < n implies #[trigger] comments@[a].time
            <= #[trigger] comments@[b].time by {
            assert(same_core(comments@[a], old_seq[a]));
            assert(same_core(comments@[b], old_seq[b]));
        }
        assert forall|k: int| i <= k < n implies !emits_one(
            #[trigger] old_seq[k],
            comments@[k],
            pos as int,
            delay as int,
            w as int,
            font as int,
        ) by {
            assert(comments@[k] == old_seq[k]);
            if done && !old_seq[k].blocked {
                assert(old_seq[k].time >= old_seq[i as int].time);
            }
        }
        lemma_emit_count_frozen(
            old_seq,
            comments@,
            pos as int,
            delay as int,
            w as int,
            font as int,
            i as int,
            n as int,
        );
        assert(old_seq.take(n as int) =~= old_seq);
        assert(comments@.take(n as int) =~= comments@);
        assert forall|j: int| 0 <= j < out@.len() implies placement_sourced(
            old_seq,
            pos as int,
            delay as int,
            #[trigger] out@[j],
        ) by {
            lemma_rank_witness(
                old_seq,
                comments@,
                pos as int,
                delay as int,
                w as int,
                font as int,
                n as int,
                j,
            );
            let i0 = choose|i0: int|
                0 <= i0 < n && emits_one(
                    #[trigger] old_seq[i0],
                    comments@[i0],
                    pos as int,
                    delay as int,
                    w as int,
                    font as int,
                ) && emit_count(
                    old_seq.take(i0),
                    comments@.take(i0),
                    pos as int,
                    delay as int,
                    w as int,
                    font as int,
                ) == j;
            reveal(placement_matches);
            assert(placement_matches(
                out@[j],
                old_seq[i0],
                comments@[i0],
                pos as int,
                delay as int,
                w as int,
                font as int,
            ));
            assert(emitted_from(old_seq[i0], pos as int, delay as int, out@[j]));
        }
    }
    out
}

/// The start position of a comment placed `ticks` after its due time.
fn fresh_position(w: u32, ticks: i64, step: u32) -> (x: i128)
    requires
        w <= 1920,
        0 <= ticks <= TICKS_MAX,
        step <= MAX_STEP,
    ensures
        x == fresh_x(w as int, ticks as int, step as int),
        -X_BOUND <= x <= X_BOUND,
        x <= (w as int) * STEP_DEN,
{
    proof {
        lemma_mul_le(ticks as int, step as int, TICKS_MAX as int, MAX_STEP as int);
    }
    let ts: i128 = (ticks as i128) * (step as i128);
    let inner: i128 = STEP_DEN - ts;
    proof {
        lemma_mul_abs(w as int, inner as int, 1920, 4_000_000_000_000_000);
    }
    let x = (w as i128) * inner;
    proof {
        assert((w as int) * inner <= (w as int) * STEP_DEN) by (nonlinear_arith)
            requires
                inner <= STEP_DEN,
                w >= 0,
        ;
    }
    x
}

/// One tick's travel for a comment, in sub-pixel units.
fn advance(w: u32, step: u32, speed: u32, ospeed: u32) -> (a: i128)
    requires
        w <= 1920,
        step <= MAX_STEP,
    ensures
        a == advance_amt(w as int, step as int, speed as int, ospeed as int),
        0 <= a <= 100_000_000_000_000_000_000,
{
    proof {
        lemma_mul_le(w as int, step as int, 1920, MAX_STEP as int);
    }
    let p1: i128 = (w as i128) * (step as i128);
    proof {
        lemma_mul_le(p1 as int, speed as int, 1920 * (MAX_STEP as int), u32::MAX as int);
    }
    let p2: i128 = p1 * (speed as i128);
    proof {
        lemma_mul_le(
            p2 as int,
            ospeed as int,
            1920 * (MAX_STEP as int) * (u32::MAX as int),
            u32::MAX as int,
        );
    }
    let p3: i128 = p2 * (ospeed as i128);
    let a = p3 / 1_000_000;
    proof {
        assert(a >= 0);
        assert(a <= 100_000_000_000_000_000_000);
    }
    a
}

} // verus!
