//! The tick orchestrator: the single owner of the shared comment set,
//! the enabled flag, the delay offset and the live filter.  The host
//! loop hands it discrete events — a toggle, a media load, a finished
//! fetch, a seek, a delay change, a filter override, a tick — and
//! performs the actions it returns.

use vstd::prelude::*;
use crate::comment::{
    same_payload, sorted_by_time, wf_comments, Danmaku, Status,
};
use crate::error::DanmakuError;
use crate::options::{add_sources, distinct_sources, sources_of_csv, Filter, Options};
use crate::sched::{
    emit_count, emits_one, fit_h, fit_w, handled, lane_count_spec, lanes_after, placement_matches,
    placement_sourced, render, reset_status, Placement,
};
use crate::source::{source_from_name, Source};
use crate::text::{chars_of, dec_seq, push_dec, split_keep, split_keep_spec};
use crate::{DELAY_MAX, TIME_MAX};

verus! {

/// What the host must do after a toggle.
#[derive(Debug, Clone, Copy, PartialEq, Eq, Structural)]
pub enum ToggleAction {
    /// The overlay was switched off: cancel any fetch, clear the
    /// overlay.
    TurnedOff,
    /// Switched on with comments at hand: show the current tick.
    RenderNow,
    /// Switched on without comments: start a fetch.
    StartFetch,
}

/// How many comments of a batch are not hidden by the origin filter.
pub open spec fn unblocked_count(s: Seq<Danmaku>) -> int
    decreases s.len(),
{
    if s.len() == 0 {
        0
    } else {
        unblocked_count(s.drop_last()) + if s.last().blocked {
            0int
        } else {
            1int
        }
    }
}

/// The message shown once a batch is in: its unblocked count, with a
/// plural `s` past one.
pub open spec fn loaded_msg(n: nat) -> Seq<char> {
    "Loaded "@ + dec_seq(n) + " danmaku comment"@ + if n > 1 {
        "s"@
    } else {
        Seq::<char>::empty()
    }
}

/// The message shown when an ingestion attempt fails.
pub open spec fn error_msg(e: DanmakuError) -> Seq<char> {
    "Danmaku: "@ + e.spec_message()
}

/// The user-facing load report for `n` unblocked comments.
pub fn loaded(n: usize) -> (r: String)
    ensures
        r@ == loaded_msg(n as nat),
{
    let mut s = String::new();
    s.append("Loaded ");
    push_dec(&mut s, n as u64);
    s.append(" danmaku comment");
    if n > 1 {
        s.append("s");
    }
    proof {
        assert(s@ =~= loaded_msg(n as nat));
    }
    s
}

/// Count the comments not hidden by the origin filter.
#[verifier::loop_isolation(false)]
pub fn count_unblocked(v: &Vec<Danmaku>) -> (r: usize)
    ensures
        r == unblocked_count(v@),
{
    let mut r: usize = 0;
    let mut i: usize = 0;
    while i < v.len()
        invariant
            i <= v@.len(),
            r == unblocked_count(v@.take(i as int)),
            r <= i,
        decreases v@.len() - i,
    {
        proof {
            assert(v@.take(i + 1).drop_last() =~= v@.take(i as int));
            assert(v@.take(i + 1).last() == v@[i as int]);
        }
        if !v[i].blocked {
            r += 1;
        }
        i += 1;
    }
    proof {
        assert(v@.take(v@.len() as int) =~= v@);
    }
    r
}

/// The origins named in a comma-separated list, unknown names dropped,
/// each at most once.
#[verifier::loop_isolation(false)]
pub fn csv_sources(value: &str) -> (r: Vec<Source>)
    ensures
        r@ == sources_of_csv(split_keep_spec(value@, ',')),
        distinct_sources(r@),
{
    let v = chars_of(value);
    let pieces = split_keep(&v, ',');
    let mut srcs: Vec<Source> = Vec::new();
    proof {
        assert(srcs@ =~= add_sources(Seq::<Source>::empty(), pieces.deep_view().take(0)));
    }
    let mut j: usize = 0;
    while j < pieces.len()
        invariant
            j <= pieces@.len(),
            srcs@ == add_sources(Seq::<Source>::empty(), pieces.deep_view().take(j as int)),
        decreases pieces@.len() - j,
    {
        proof {
            assert(pieces.deep_view().take(j + 1).drop_last() =~= pieces.deep_view().take(
                j as int,
            ));
            assert(pieces.deep_view().take(j + 1).last() == pieces.deep_view()[j as int]);
            assert(pieces.deep_view()[j as int] == pieces@[j as int]@);
        }
        let src = source_from_name(&pieces[j]);
        if src != Source::Unknown && !crate::options::sources_contain(&srcs, src) {
            srcs.push(src);
        }
        proof {
            assert(srcs@ =~= add_sources(Seq::<Source>::empty(), pieces.deep_view().take(j + 1)));
        }
        j += 1;
    }
    proof {
        assert(pieces.deep_view().take(pieces@.len() as int) =~= pieces.deep_view());
        crate::options::lemma_add_sources_distinct(
            Seq::<Source>::empty(),
            pieces.deep_view(),
        );
    }
    srcs
}

/// The single owner of the overlay's shared state.
#[derive(Debug)]
pub struct Orchestrator {
    /// Whether the overlay is switched on.
    pub enabled: bool,
    /// The ingested batch, or nothing before the first successful
    /// fetch of the current media item.
    pub comments: Option<Vec<Danmaku>>,
    /// The delay offset added to every comment's time, in
    /// milliseconds.
    pub delay: i64,
    pub options: Options,
    pub filter: Filter,
}

impl Orchestrator {
    /// The state every orchestrator keeps: admissible options and
    /// delay, and a well-formed, time-sorted batch when one is in.
    pub open spec fn wf(self) -> bool {
        &&& self.options.wf()
        &&& -DELAY_MAX <= self.delay <= DELAY_MAX
        &&& match self.comments {
            Some(cs) => wf_comments(cs@) && sorted_by_time(cs@),
            None => true,
        }
    }

    /// A fresh, disabled orchestrator without comments.
    pub fn new(options: Options, filter: Filter) -> (r: Orchestrator)
        requires
            options.wf(),
        ensures
            r.wf(),
            !r.enabled,
            r.comments is None,
            r.delay == 0,
            r.options == options,
            r.filter == filter,
    {
        Orchestrator { enabled: false, comments: None, delay: 0, options, filter }
    }

    /// Flip the overlay on or off.  Off cancels everything; on either
    /// shows the batch at hand, with every scroll state reset, or asks
    /// for a fetch.
    pub fn toggle(&mut self) -> (r: ToggleAction)
        requires
            old(self).wf(),
        ensures
            final(self).wf(),
            final(self).enabled == !old(self).enabled,
            final(self).delay == old(self).delay,
            final(self).options == old(self).options,
            final(self).filter == old(self).filter,
            old(self).enabled ==> r == ToggleAction::TurnedOff && final(self).comments == old(
                self,
            ).comments,
            !old(self).enabled && old(self).comments is None ==> r == ToggleAction::StartFetch
                && final(self).comments is None,
            !old(self).enabled && old(self).comments is Some ==> r == ToggleAction::RenderNow
                && match (old(self).comments, final(self).comments) {
                (Some(oc), Some(nc)) => nc@.len() == oc@.len() && forall|i: int|
                    0 <= i < oc@.len() ==> crate::comment::same_core(
                        #[trigger] nc@[i],
                        oc@[i],
                    ) && nc@[i].status == Status::Unscheduled,
                _ => false,
            },
    {
        if self.enabled {
            self.enabled = false;
            ToggleAction::TurnedOff
        } else {
            self.enabled = true;
            match &mut self.comments {
                Some(cs) => {
                    reset_status(cs);
                    ToggleAction::RenderNow
                },
                None => ToggleAction::StartFetch,
            }
        }
    }

    /// Switch the overlay on; a fetch must start when no batch is in.
    pub fn enable(&mut self) -> (r: ToggleAction)
        requires
            old(self).wf(),
        ensures
            final(self).wf(),
            final(self).enabled,
            old(self).enabled ==> *final(self) == *old(self) && r == ToggleAction::RenderNow,
            !old(self).enabled && old(self).comments is None ==> r == ToggleAction::StartFetch
                && final(self).comments is None,
            final(self).delay == old(self).delay,
            final(self).options == old(self).options,
            final(self).filter == old(self).filter,
    {
        if self.enabled {
            ToggleAction::RenderNow
        } else {
            self.toggle()
        }
    }

    /// Switch the overlay off; the host clears it and cancels any
    /// fetch.
    pub fn disable(&mut self)
        requires
            old(self).wf(),
        ensures
            final(self).wf(),
            !final(self).enabled,
            final(self).comments == old(self).comments,
            final(self).delay == old(self).delay,
            final(self).options == old(self).options,
            final(self).filter == old(self).filter,
    {
        self.enabled = false;
    }

    /// A new media item is playing: drop the old batch, zero the
    /// delay.  A fetch should start exactly when the overlay is on.
    pub fn on_media_loaded(&mut self) -> (fetch: bool)
        requires
            old(self).wf(),
        ensures
            final(self).wf(),
            final(self).comments is None,
            final(self).delay == 0,
            final(self).enabled == old(self).enabled,
            final(self).options == old(self).options,
            final(self).filter == old(self).filter,
            fetch == old(self).enabled,
    {
        self.comments = None;
        self.delay = 0;
        self.enabled
    }

    /// Take a finished fetch: a batch replaces the empty state; a
    /// failure leaves the state untouched.  Either way, when the
    /// overlay is on, exactly one user message comes back: the load
    /// report or the error.
    pub fn on_fetch_result(&mut self, res: Result<Vec<Danmaku>, DanmakuError>) -> (msg: Option<
        String,
    >)
        requires
            old(self).wf(),
            match res {
                Ok(list) => wf_comments(list@) && sorted_by_time(list@),
                Err(_) => true,
            },
        ensures
            final(self).wf(),
            final(self).enabled == old(self).enabled,
            final(self).delay == old(self).delay,
            final(self).options == old(self).options,
            final(self).filter == old(self).filter,
            match res {
                Ok(list) => final(self).comments == Some(list) && match msg {
                    Some(m) => old(self).enabled && m@ == loaded_msg(
                        unblocked_count(list@) as nat,
                    ),
                    None => !old(self).enabled,
                },
                Err(e) => final(self).comments == old(self).comments && match msg {
                    Some(m) => old(self).enabled && m@ == error_msg(e),
                    None => !old(self).enabled,
                },
            },
    {
        match res {
            Ok(list) => {
                let n = count_unblocked(&list);
                proof {
                    assert(unblocked_count(list@) >= 0);
                }
                self.comments = Some(list);
                if self.enabled {
                    Some(loaded(n))
                } else {
                    None
                }
            },
            Err(e) => {
                if self.enabled {
                    let mut s = String::new();
                    s.append("Danmaku: ");
                    s.append(e.message());
                    proof {
                        assert(s@ =~= error_msg(e));
                    }
                    Some(s)
                } else {
                    None
                }
            },
        }
    }

    /// The playback timeline jumped: every comment's scroll state,
    /// the skipped ones included, goes back to `Unscheduled`.
    pub fn on_seek(&mut self)
        requires
            old(self).wf(),
        ensures
            final(self).wf(),
            final(self).enabled == old(self).enabled,
            final(self).delay == old(self).delay,
            final(self).options == old(self).options,
            final(self).filter == old(self).filter,
            match (old(self).comments, final(self).comments) {
                (Some(oc), Some(nc)) => nc@.len() == oc@.len() && forall|i: int|
                    0 <= i < oc@.len() ==> crate::comment::same_core(#[trigger] nc@[i], oc@[i])
                        && nc@[i].status == Status::Unscheduled,
                (None, None) => true,
                _ => false,
            },
    {
        match &mut self.comments {
            Some(cs) => {
                reset_status(cs);
            },
            None => {},
        }
    }

    /// Shift the delay offset, saturating at the model's band, and
    /// reset every scroll state: the admission math depends on the
    /// elapsed ticks since due time, which the delay changes.
    pub fn on_delay_adjust(&mut self, ms: i64) -> (nd: i64)
        requires
            old(self).wf(),
        ensures
            final(self).wf(),
            final(self).enabled == old(self).enabled,
            final(self).options == old(self).options,
            final(self).filter == old(self).filter,
            nd == final(self).delay,
            final(self).delay == if old(self).delay + ms < -DELAY_MAX {
                -DELAY_MAX as int
            } else if old(self).delay + ms > DELAY_MAX {
                DELAY_MAX as int
            } else {
                old(self).delay + ms
            },
            match (old(self).comments, final(self).comments) {
                (Some(oc), Some(nc)) => nc@.len() == oc@.len() && forall|i: int|
                    0 <= i < oc@.len() ==> crate::comment::same_core(#[trigger] nc@[i], oc@[i])
                        && nc@[i].status == Status::Unscheduled,
                (None, None) => true,
                _ => false,
            },
    {
        let wide: i128 = (self.delay as i128) + (ms as i128);
        let nd: i64 = if wide < -DELAY_MAX as i128 {
            -DELAY_MAX
        } else if wide > DELAY_MAX as i128 {
            DELAY_MAX
        } else {
            wide as i64
        };
        self.delay = nd;
        match &mut self.comments {
            Some(cs) => {
                reset_status(cs);
            },
            None => {},
        }
        nd
    }

    /// Replace or clear the live origin override.  An empty value
    /// reverts to exactly the static decision; a list installs its
    /// named origins.  Either way every comment's `blocked` flag is
    /// recomputed and every scroll state reset.
    #[verifier::loop_isolation(false)]
    pub fn on_filter_source_override(&mut self, value: &str)
        requires
            old(self).wf(),
        ensures
            final(self).wf(),
            final(self).enabled == old(self).enabled,
            final(self).delay == old(self).delay,
            final(self).options == old(self).options,
            final(self).filter.keywords == old(self).filter.keywords,
            final(self).filter.sources == old(self).filter.sources,
            value@.len() == 0 ==> final(self).filter.sources_rt is None,
            value@.len() > 0 ==> match final(self).filter.sources_rt {
                Some(rt) => rt@ == sources_of_csv(split_keep_spec(value@, ','))
                    && distinct_sources(rt@),
                None => false,
            },
            match (old(self).comments, final(self).comments) {
                (Some(oc), Some(nc)) => nc@.len() == oc@.len() && forall|i: int|
                    0 <= i < oc@.len() ==> same_payload(#[trigger] nc@[i], oc@[i]) && nc@[i].status
                        == Status::Unscheduled && nc@[i].blocked == crate::options::blocked_spec(
                        &final(self).filter,
                        nc@[i].source,
                    ),
                (None, None) => true,
                _ => false,
            },
    {
        let n = value.unicode_len();
        if n == 0 {
            self.filter.sources_rt = None;
        } else {
            let srcs = csv_sources(value);
            self.filter.sources_rt = Some(srcs);
        }
        let ghost f = self.filter;
        match &mut self.comments {
            Some(cs) => {
                let mut i: usize = 0;
                let ghost oc = cs@;
                while i < cs.len()
                    invariant
                        i <= cs@.len(),
                        cs@.len() == oc.len(),
                        forall|k: int| i <= k < oc.len() ==> cs@[k] == oc[k],
                        forall|k: int|
                            0 <= k < i ==> same_payload(#[trigger] cs@[k], oc[k]) && cs@[k].status
                                == Status::Unscheduled && cs@[k].blocked
                                == crate::options::blocked_spec(&f, cs@[k].source),
                    decreases cs@.len() - i,
                {
                    let src = cs[i].source;
                    let b = crate::options::source_blocked(&self.filter, src);
                    let c = comment_mut(cs, i);
                    c.blocked = b;
                    c.status = Status::Unscheduled;
                    i += 1;
                }
            },
            None => {},
        }
    }

    /// One scheduler tick against the current batch; without a batch
    /// the overlay is empty.
    pub fn tick(&mut self, pos: i64, speed: u32, osd_width: u32, osd_height: u32) -> (out: Vec<
        Placement,
    >)
        requires
            old(self).wf(),
            -TIME_MAX <= pos <= TIME_MAX,
        ensures
            final(self).wf(),
            final(self).enabled == old(self).enabled,
            final(self).delay == old(self).delay,
            final(self).options == old(self).options,
            final(self).filter == old(self).filter,
            match (old(self).comments, final(self).comments) {
                (Some(oc), Some(nc)) => {
                    &&& nc@.len() == oc@.len()
                    &&& forall|i: int|
                        0 <= i < oc@.len() ==> crate::comment::same_core(
                            #[trigger] nc@[i],
                            oc@[i],
                        ) && handled(
                            oc@[i],
                            nc@[i],
                            pos as int,
                            old(self).delay as int,
                            fit_w(osd_width as int, osd_height as int),
                            old(self).options.font_size as int,
                            speed as int,
                            old(self).options.speed as int,
                            old(self).options.no_overlap,
                            lane_count_spec(
                                fit_h(osd_width as int, osd_height as int),
                                old(self).options.reserved_space as int,
                                old(self).options.font_size as int,
                            ),
                            lanes_after(
                                oc@.take(i),
                                nc@.take(i),
                                pos as int,
                                old(self).delay as int,
                                fit_w(osd_width as int, osd_height as int),
                                old(self).options.font_size as int,
                                lane_count_spec(
                                    fit_h(osd_width as int, osd_height as int),
                                    old(self).options.reserved_space as int,
                                    old(self).options.font_size as int,
                                ),
                            ),
                        )
                    &&& forall|j: int|
                        0 <= j < out@.len() ==> placement_sourced(
                            oc@,
                            pos as int,
                            old(self).delay as int,
                            #[trigger] out@[j],
                        )
                    &&& out@.len() == emit_count(
                        oc@,
                        nc@,
                        pos as int,
                        old(self).delay as int,
                        fit_w(osd_width as int, osd_height as int),
                        old(self).options.font_size as int,
                    )
                    &&& forall|i: int|
                        0 <= i < oc@.len() && emits_one(
                            #[trigger] oc@[i],
                            nc@[i],
                            pos as int,
                            old(self).delay as int,
                            fit_w(osd_width as int, osd_height as int),
                            old(self).options.font_size as int,
                        ) ==> {
                            let r = emit_count(
                                oc@.take(i),
                                nc@.take(i),
                                pos as int,
                                old(self).delay as int,
                                fit_w(osd_width as int, osd_height as int),
                                old(self).options.font_size as int,
                            );
                            0 <= r < out@.len() && placement_matches(
                                out@[r],
                                oc@[i],
                                nc@[i],
                                pos as int,
                                old(self).delay as int,
                                fit_w(osd_width as int, osd_height as int),
                                old(self).options.font_size as int,
                            )
                        }
                },
                (None, None) => out@.len() == 0,
                _ => false,
            },
    {
        let delay = self.delay;
        let opts = self.options;
        match &mut self.comments {
            Some(cs) => render(cs, pos, delay, speed, &opts, osd_width, osd_height),
            None => Vec::new(),
        }
    }
}

/// A mutable borrow of one comment of the batch.
fn comment_mut(v: &mut Vec<Danmaku>, i: usize) -> (element: &mut Danmaku)
    requires
        i < old(v).len(),
    ensures
        *element == old(v)@[i as int],
        final(v)@ == old(v)@.update(i as int, *final(element)),
{
    &mut v[i]
}

} // verus!
