//! The lane scheduler and the tick orchestrator: viewport fitting,
//! admission, step ceilings, skip-versus-overlap policy, and the
//! control surface around the shared comment set.

use danmaku::comment::{Danmaku, Status, StatusInner};
use danmaku::options::{Filter, Options};
use danmaku::orchestrator::{Orchestrator, ToggleAction};
use danmaku::sched::{admits, ceiling, fit_viewport, lane_count, min_end_lane, place_step, render, reset_status, schedule_unscheduled, Lane};
use danmaku::source::Source;
use danmaku::error::DanmakuError;
use danmaku::{MAX_STEP, MIN_STEP};

fn comment(time: i64, message: &str, source: Source, blocked: bool) -> Danmaku {
    Danmaku {
        message: message.to_string(),
        count: message.chars().count(),
        time,
        r: 255,
        g: 255,
        b: 255,
        source,
        blocked,
        status: Status::Unscheduled,
    }
}

fn one_lane_options(no_overlap: bool) -> Options {
    // font 1000 + spacing 100 exceeds half the height: exactly one lane.
    Options { font_size: 1000, transparency: 0x30, reserved_space: 0, speed: 1000, no_overlap }
}

fn empty_filter() -> Filter {
    Filter { keywords: Vec::new(), sources: Vec::new(), sources_rt: None }
}

#[test]
fn viewport_fits_to_sixteen_by_nine() {
    assert_eq!(fit_viewport(1920, 1080), (1920, 1080));
    assert_eq!(fit_viewport(3840, 1080), (1920, 540));
    assert_eq!(fit_viewport(1080, 1920), (607, 1080));
    assert_eq!(fit_viewport(0, 0), (1920, 1080));
}

#[test]
fn lane_count_divides_the_usable_height() {
    assert_eq!(lane_count(1080, 0, 40), 24);
    assert_eq!(lane_count(1080, 500, 40), 12);
    assert_eq!(lane_count(1080, 0, 1000), 1);
    assert_eq!(lane_count(0, 0, 40), 1);
}

#[test]
fn admission_boundary_is_exact() {
    // At zero elapsed ticks the bound is the full width in sub-pixels.
    let just_inside = Lane { end: 4_607_999_999, step: MIN_STEP };
    let at_bound = Lane { end: 4_608_000_000, step: MIN_STEP };
    assert!(admits(just_inside, 0, 1920));
    assert!(!admits(at_bound, 0, 1920));
    // 1200 elapsed ticks at minimum speed eat half the width.
    let l = Lane { end: 2_303_999_999, step: MIN_STEP };
    let l2 = Lane { end: 2_304_000_000, step: MIN_STEP };
    assert!(admits(l, 1200, 1920));
    assert!(!admits(l2, 1200, 1920));
}

#[test]
fn step_ceiling_follows_the_occupant() {
    // A cleared lane imposes only the global maximum.
    assert_eq!(ceiling(Lane { end: 0, step: MIN_STEP }, 0, 1920), MAX_STEP);
    assert_eq!(ceiling(Lane { end: -5, step: MIN_STEP }, 500, 1920), MAX_STEP);
    // An occupant 4e9 sub-pixels deep at minimum speed: 4.608e12 / 4e9.
    assert_eq!(ceiling(Lane { end: 4_000_000_000, step: MIN_STEP }, 0, 1920), 1152);
    // A far occupant pushes the ceiling to the floor of the band.
    assert_eq!(ceiling(Lane { end: 4_608_000_000_000, step: MIN_STEP }, 0, 1920), MIN_STEP + 1);
}

#[test]
fn accepted_steps_stay_below_the_ceiling() {
    let l = Lane { end: 4_000_000_000, step: MIN_STEP };
    for _ in 0..50 {
        let s = place_step(l, 0, 1920);
        assert!(MIN_STEP <= s && s < 1152);
    }
    let virgin = Lane { end: 0, step: MIN_STEP };
    for _ in 0..50 {
        let s = place_step(virgin, 0, 1920);
        assert!(MIN_STEP <= s && s < MAX_STEP);
    }
}

#[test]
fn min_end_lane_takes_the_last_minimum() {
    let lanes = vec![
        Lane { end: 7, step: MIN_STEP },
        Lane { end: 3, step: MIN_STEP },
        Lane { end: 3, step: MIN_STEP },
        Lane { end: 9, step: MIN_STEP },
    ];
    assert_eq!(min_end_lane(&lanes), 2);
}

#[test]
fn admission_decision_picks_first_lane_or_forces_the_emptiest() {
    // The second lane is the first admissible one.
    let lanes = vec![
        Lane { end: 9_000_000_000, step: MIN_STEP },
        Lane { end: 0, step: MIN_STEP },
    ];
    let s = schedule_unscheduled(&lanes, 0, 1920, true).unwrap();
    assert_eq!(s.row, 1);
    assert!(MIN_STEP <= s.step && s.step < MAX_STEP);
    // At zero elapsed ticks the start position is the right edge.
    assert_eq!(s.x, 4_608_000_000);

    // One second late, the start position has moved in by the step.
    let late = schedule_unscheduled(&lanes, 200, 1920, true).unwrap();
    assert_eq!(late.x, 1920 * (2_400_000 - 200 * (late.step as i128)));

    // No lane admissible: the no-overlap policy drops the comment...
    let full = vec![
        Lane { end: 9_000_000_000, step: MIN_STEP },
        Lane { end: 5_000_000_000, step: MIN_STEP },
    ];
    assert!(schedule_unscheduled(&full, 0, 1920, true).is_none());

    // ...and the permissive policy force-places at minimum speed into
    // the lane with the smallest trailing edge.
    let f = schedule_unscheduled(&full, 0, 1920, false).unwrap();
    assert_eq!(f.row, 1);
    assert_eq!(f.step, MIN_STEP);
}

#[test]
fn no_overlap_skips_the_unplaceable_comment() {
    let opts = one_lane_options(true);
    let mut comments = vec![
        comment(0, "first", Source::Dandan, false),
        comment(0, "second", Source::Dandan, false),
    ];
    let out = render(&mut comments, 0, 0, 1000, &opts, 1920, 1080);
    assert_eq!(out.len(), 1);
    assert_eq!(out[0].message, "first");
    // A comment due right now is drawn at the right edge, in lane 0.
    assert_eq!(out[0].x, 4_608_000_000);
    assert_eq!(out[0].y, 0);
    assert_eq!(out[0].font_size, 1000);
    assert!(matches!(comments[0].status, Status::Scheduled(_)));
    assert_eq!(comments[1].status, Status::Skipped);

    // Later ticks never emit the skipped comment again.
    let out2 = render(&mut comments, 500, 0, 1000, &opts, 1920, 1080);
    assert_eq!(out2.len(), 1);
    assert_eq!(out2[0].message, "first");
    assert_eq!(comments[1].status, Status::Skipped);

    // A reset brings even the skipped comment back.
    reset_status(&mut comments);
    assert_eq!(comments[0].status, Status::Unscheduled);
    assert_eq!(comments[1].status, Status::Unscheduled);
}

#[test]
fn overlap_policy_force_places_instead() {
    let opts = one_lane_options(false);
    let mut comments = vec![
        comment(0, "first", Source::Dandan, false),
        comment(0, "second", Source::Dandan, false),
    ];
    let out = render(&mut comments, 0, 0, 1000, &opts, 1920, 1080);
    assert_eq!(out.len(), 2);
    // Placements come in comment order, both at the right edge of the
    // single lane.
    assert_eq!(out[0].message, "first");
    assert_eq!(out[1].message, "second");
    assert_eq!(out[1].x, 4_608_000_000);
    assert_eq!(out[1].y, 0);
    match comments[1].status {
        Status::Scheduled(StatusInner { row, step, .. }) => {
            assert_eq!(row, 0);
            assert_eq!(step, MIN_STEP);
        },
        _ => panic!("expected the second comment to be force-placed"),
    }
}

#[test]
fn blocked_and_undue_comments_are_untouched() {
    let opts = one_lane_options(true);
    let mut comments = vec![
        comment(0, "hidden", Source::Gamer, true),
        comment(9_000_000, "future", Source::Dandan, false),
    ];
    let out = render(&mut comments, 1000, 0, 1000, &opts, 1920, 1080);
    assert_eq!(out.len(), 0);
    assert_eq!(comments[0].status, Status::Unscheduled);
    assert_eq!(comments[1].status, Status::Unscheduled);
}

#[test]
fn scheduled_comments_advance_leftwards() {
    let opts = one_lane_options(true);
    let mut comments = vec![comment(0, "mover", Source::Dandan, false)];
    render(&mut comments, 0, 0, 1000, &opts, 1920, 1080);
    let x1 = match comments[0].status {
        Status::Scheduled(s) => s.x,
        _ => panic!("expected a schedule"),
    };
    render(&mut comments, 5, 0, 1000, &opts, 1920, 1080);
    let x2 = match comments[0].status {
        Status::Scheduled(s) => s.x,
        _ => panic!("expected a schedule"),
    };
    assert!(x2 < x1);
}

#[test]
fn status_insert_replaces_the_state() {
    let mut st = Status::Skipped;
    st.insert(StatusInner { x: 5, row: 2, step: MIN_STEP });
    assert_eq!(st, Status::Scheduled(StatusInner { x: 5, row: 2, step: MIN_STEP }));
}

#[test]
fn toggle_walks_off_fetch_and_render() {
    let mut orch = Orchestrator::new(Options::default(), empty_filter());
    assert_eq!(orch.toggle(), ToggleAction::StartFetch);
    assert!(orch.enabled);
    assert_eq!(orch.toggle(), ToggleAction::TurnedOff);
    assert!(!orch.enabled);
    orch.comments = Some(vec![comment(0, "m", Source::Dandan, false)]);
    assert_eq!(orch.toggle(), ToggleAction::RenderNow);
}

#[test]
fn ambiguous_match_leaves_the_set_empty_with_one_message() {
    let mut orch = Orchestrator::new(Options::default(), empty_filter());
    orch.toggle();
    let msg = orch.on_fetch_result(Err(DanmakuError::AmbiguousMatch));
    assert_eq!(msg, Some("Danmaku: more than one match found".to_string()));
    assert!(orch.comments.is_none());
    let ticks = orch.tick(1000, 1000, 1920, 1080);
    assert!(ticks.is_empty());
}

#[test]
fn successful_fetch_reports_the_unblocked_count() {
    let mut orch = Orchestrator::new(Options::default(), empty_filter());
    orch.toggle();
    let batch = vec![
        comment(0, "a", Source::Dandan, false),
        comment(100, "b", Source::Gamer, true),
        comment(200, "c", Source::Dandan, false),
    ];
    let msg = orch.on_fetch_result(Ok(batch));
    assert_eq!(msg, Some("Loaded 2 danmaku comments".to_string()));
    assert!(orch.comments.is_some());
}

#[test]
fn seek_resets_every_state_including_skipped() {
    let mut orch = Orchestrator::new(one_lane_options(true), empty_filter());
    orch.toggle();
    orch.on_fetch_result(Ok(vec![
        comment(0, "first", Source::Dandan, false),
        comment(0, "second", Source::Dandan, false),
    ]));
    orch.tick(0, 1000, 1920, 1080);
    {
        let cs = orch.comments.as_ref().unwrap();
        assert!(matches!(cs[0].status, Status::Scheduled(_)));
        assert_eq!(cs[1].status, Status::Skipped);
    }
    orch.on_seek();
    let cs = orch.comments.as_ref().unwrap();
    assert_eq!(cs[0].status, Status::Unscheduled);
    assert_eq!(cs[1].status, Status::Unscheduled);
}

#[test]
fn delay_adjust_shifts_and_resets() {
    let mut orch = Orchestrator::new(Options::default(), empty_filter());
    orch.on_fetch_result(Ok(vec![comment(0, "m", Source::Dandan, false)]));
    orch.tick(0, 1000, 1920, 1080);
    let nd = orch.on_delay_adjust(250);
    assert_eq!(nd, 250);
    assert_eq!(orch.delay, 250);
    assert_eq!(orch.comments.as_ref().unwrap()[0].status, Status::Unscheduled);
    let nd2 = orch.on_delay_adjust(-1000);
    assert_eq!(nd2, -750);
}

#[test]
fn clearing_the_override_reproduces_the_static_decision() {
    let mut filter = empty_filter();
    filter.sources = vec![Source::Gamer];
    let mut orch = Orchestrator::new(Options::default(), filter);
    orch.on_fetch_result(Ok(vec![
        comment(0, "from gamer", Source::Gamer, true),
        comment(100, "from dandan", Source::Dandan, false),
    ]));

    // A live override replaces the static set wholesale.
    orch.on_filter_source_override("dandan");
    {
        let cs = orch.comments.as_ref().unwrap();
        assert!(!cs[0].blocked);
        assert!(cs[1].blocked);
    }

    // Clearing it reverts to exactly the static decision.
    orch.on_filter_source_override("");
    let cs = orch.comments.as_ref().unwrap();
    assert!(cs[0].blocked);
    assert!(!cs[1].blocked);
    assert_eq!(cs[0].status, Status::Unscheduled);
    assert!(orch.filter.sources_rt.is_none());
}

#[test]
fn enable_disable_track_the_flag() {
    let mut orch = Orchestrator::new(Options::default(), empty_filter());
    assert_eq!(orch.enable(), ToggleAction::StartFetch);
    assert!(orch.enabled);
    assert_eq!(orch.enable(), ToggleAction::RenderNow);
    orch.disable();
    assert!(!orch.enabled);
    orch.disable();
    assert!(!orch.enabled);
}

#[test]
fn file_load_drops_the_batch_and_delay() {
    let mut orch = Orchestrator::new(Options::default(), empty_filter());
    orch.on_fetch_result(Ok(vec![comment(0, "m", Source::Dandan, false)]));
    orch.on_delay_adjust(500);
    let fetch = orch.on_media_loaded();
    assert!(!fetch);
    assert!(orch.comments.is_none());
    assert_eq!(orch.delay, 0);
    orch.toggle();
    assert!(orch.on_media_loaded());
}
