//! The ingestion pipeline: provenance classification, color decoding,
//! keyword filtering, normalization, sorting, and option parsing.

use danmaku::color::ColorCode;
use danmaku::normalize::{process_danmaku_response, RawDanmaku};
use danmaku::options::{apply_bilibili_rules, parse_options, BilibiliFilterRule, Filter, Options};
use danmaku::orchestrator::loaded;
use danmaku::source::{user_source, Source};
use danmaku::comment::Status;

fn raw(time: i64, color: ColorCode, message: &str, user: &str) -> RawDanmaku {
    RawDanmaku { time, color, message: message.to_string(), user: user.to_string() }
}

fn empty_filter() -> Filter {
    Filter { keywords: Vec::new(), sources: Vec::new(), sources_rt: None }
}

#[test]
fn digits_only_user_is_dandan() {
    assert_eq!(user_source("12345"), Source::Dandan);
    assert_eq!(user_source(""), Source::Dandan);
}

#[test]
fn bracketed_user_names_its_origin() {
    assert_eq!(user_source("[GAMER]xyz"), Source::Gamer);
    assert_eq!(user_source("[gamer]xyz"), Source::Gamer);
    assert_eq!(user_source("[BiliBili]abc"), Source::Bilibili);
    assert_eq!(user_source("[qq]u"), Source::QQ);
    assert_eq!(user_source("[iqiyi]u"), Source::IQIYI);
    assert_eq!(user_source("[acfun]u"), Source::AcFun);
    assert_eq!(user_source("[d]u"), Source::D);
    assert_eq!(user_source("[dandan]u"), Source::Dandan);
    assert_eq!(user_source("[nobody]u"), Source::Unknown);
}

#[test]
fn plain_user_is_unknown() {
    assert_eq!(user_source("xyz"), Source::Unknown);
    assert_eq!(user_source("[unclosed"), Source::Unknown);
    assert_eq!(user_source("x]y"), Source::Unknown);
}

#[test]
fn packed_color_decodes_to_channels() {
    let f = empty_filter();
    let items = vec![raw(5000, ColorCode::Packed(16711680), "hello", "12345")];
    let out = process_danmaku_response(&items, &f);
    assert_eq!(out.len(), 1);
    assert_eq!(out[0].source, Source::Dandan);
    assert_eq!(out[0].r, 255);
    assert_eq!(out[0].g, 0);
    assert_eq!(out[0].b, 0);
    assert_eq!(out[0].time, 5000);
    assert_eq!(out[0].message, "hello");
    assert_eq!(out[0].count, 5);
    assert!(!out[0].blocked);
    assert_eq!(out[0].status, Status::Unscheduled);
}

#[test]
fn hex_color_decodes_past_its_marker() {
    let f = empty_filter();
    let items = vec![
        raw(0, ColorCode::Text("#ff8000".to_string()), "a", "1"),
        raw(0, ColorCode::Text("#FFFFFF".to_string()), "b", "1"),
        raw(0, ColorCode::Text("#zz".to_string()), "c", "1"),
        raw(0, ColorCode::Text("".to_string()), "d", "1"),
        raw(0, ColorCode::Text("#1ffffffff".to_string()), "e", "1"),
    ];
    let out = process_danmaku_response(&items, &f);
    assert_eq!((out[0].r, out[0].g, out[0].b), (255, 128, 0));
    assert_eq!((out[1].r, out[1].g, out[1].b), (255, 255, 255));
    assert_eq!((out[2].r, out[2].g, out[2].b), (0, 0, 0));
    assert_eq!((out[3].r, out[3].g, out[3].b), (0, 0, 0));
    assert_eq!((out[4].r, out[4].g, out[4].b), (0, 0, 0));
}

#[test]
fn keyword_match_removes_the_record_entirely() {
    let mut f = empty_filter();
    f.keywords = vec!["bad".to_string()];
    let items = vec![
        raw(1000, ColorCode::Packed(0), "this is bad stuff", "1"),
        raw(2000, ColorCode::Packed(0), "fine", "1"),
        raw(3000, ColorCode::Packed(0), "also bad", "1"),
    ];
    let out = process_danmaku_response(&items, &f);
    assert_eq!(out.len(), 1);
    assert_eq!(out[0].message, "fine");
    for c in &out {
        assert!(!c.message.contains("bad"));
    }
}

#[test]
fn batch_is_sorted_by_time_ascending() {
    let f = empty_filter();
    let items = vec![
        raw(3000, ColorCode::Packed(0), "three", "1"),
        raw(1000, ColorCode::Packed(0), "one", "1"),
        raw(2000, ColorCode::Packed(0), "two", "1"),
        raw(1000, ColorCode::Packed(0), "one-bis", "1"),
    ];
    let out = process_danmaku_response(&items, &f);
    assert_eq!(out.len(), 4);
    for w in out.windows(2) {
        assert!(w[0].time <= w[1].time);
    }
    let msgs: Vec<&str> = out.iter().map(|c| c.message.as_str()).collect();
    assert!(msgs.contains(&"one"));
    assert!(msgs.contains(&"one-bis"));
    assert!(msgs.contains(&"two"));
    assert!(msgs.contains(&"three"));
}

#[test]
fn newlines_are_escaped_and_count_is_raw_cells() {
    let f = empty_filter();
    let items = vec![raw(0, ColorCode::Packed(0), "a\nb", "1")];
    let out = process_danmaku_response(&items, &f);
    assert_eq!(out[0].message, "a\\Nb");
    assert_eq!(out[0].count, 3);
}

#[test]
fn an_emoji_counts_as_one_cell() {
    let f = empty_filter();
    let items = vec![raw(0, ColorCode::Packed(0), "ok \u{1F44D}", "1")];
    let out = process_danmaku_response(&items, &f);
    assert_eq!(out[0].count, 4);
}

#[test]
fn combining_and_joined_sequences_count_once() {
    let f = empty_filter();
    let items = vec![
        // e + combining acute accent: one cell.
        raw(0, ColorCode::Packed(0), "e\u{301}", "1"),
        // thumbs-up + skin-tone modifier: one cell.
        raw(0, ColorCode::Packed(0), "\u{1F44D}\u{1F3FB}", "1"),
        // man ZWJ woman ZWJ girl: one cell.
        raw(0, ColorCode::Packed(0), "\u{1F468}\u{200D}\u{1F469}\u{200D}\u{1F467}", "1"),
        // one flag (two regional indicators): one cell; two flags: two.
        raw(0, ColorCode::Packed(0), "\u{1F1EB}\u{1F1F7}", "1"),
        raw(0, ColorCode::Packed(0), "\u{1F1EB}\u{1F1F7}\u{1F1E9}\u{1F1EA}", "1"),
    ];
    let out = process_danmaku_response(&items, &f);
    assert_eq!(out[0].count, 1);
    assert_eq!(out[1].count, 1);
    assert_eq!(out[2].count, 1);
    assert_eq!(out[3].count, 1);
    assert_eq!(out[4].count, 2);
}

#[test]
fn origin_filter_blocks_without_removing() {
    let mut f = empty_filter();
    f.sources = vec![Source::Gamer];
    let items = vec![
        raw(0, ColorCode::Packed(0), "from gamer", "[gamer]u"),
        raw(0, ColorCode::Packed(0), "from dandan", "123"),
    ];
    let out = process_danmaku_response(&items, &f);
    assert_eq!(out.len(), 2);
    let gamer = out.iter().find(|c| c.source == Source::Gamer).unwrap();
    let dandan = out.iter().find(|c| c.source == Source::Dandan).unwrap();
    assert!(gamer.blocked);
    assert!(!dandan.blocked);
}

#[test]
fn live_override_replaces_the_static_set() {
    let mut f = empty_filter();
    f.sources = vec![Source::Gamer];
    f.sources_rt = Some(vec![Source::Dandan]);
    let items = vec![
        raw(0, ColorCode::Packed(0), "from gamer", "[gamer]u"),
        raw(0, ColorCode::Packed(0), "from dandan", "123"),
    ];
    let out = process_danmaku_response(&items, &f);
    let gamer = out.iter().find(|c| c.source == Source::Gamer).unwrap();
    let dandan = out.iter().find(|c| c.source == Source::Dandan).unwrap();
    assert!(!gamer.blocked);
    assert!(dandan.blocked);
}

#[test]
fn option_lines_accumulate() {
    let lines: Vec<String> = vec![
        "# a comment line".to_string(),
        "font_size=32".to_string(),
        "transparency=48".to_string(),
        "reserved_space=0.3".to_string(),
        "speed=1.5".to_string(),
        "no_overlap=no".to_string(),
        "filter=a,b".to_string(),
        "filter_source=bilibili,gamer,nosuch".to_string(),
        "filter_bilibili=/rules.json".to_string(),
        "junk line".to_string(),
        "unknown=1".to_string(),
    ];
    let (o, f, paths) = parse_options(&lines);
    assert_eq!(o.font_size, 32);
    assert_eq!(o.transparency, 48);
    assert_eq!(o.reserved_space, 300);
    assert_eq!(o.speed, 1500);
    assert!(!o.no_overlap);
    assert_eq!(f.keywords, vec!["a".to_string(), "b".to_string()]);
    assert_eq!(f.sources, vec![Source::Bilibili, Source::Gamer]);
    assert!(f.sources_rt.is_none());
    assert_eq!(paths, vec!["/rules.json".to_string()]);
}

#[test]
fn bad_option_values_keep_the_defaults() {
    let lines: Vec<String> = vec![
        "font_size=0".to_string(),
        "font_size=12.5".to_string(),
        "transparency=999".to_string(),
        "reserved_space=1.0".to_string(),
        "speed=0".to_string(),
        "no_overlap=maybe".to_string(),
        "filter=".to_string(),
    ];
    let (o, f, paths) = parse_options(&lines);
    assert_eq!(o, Options::default());
    assert!(f.keywords.is_empty());
    assert!(f.sources.is_empty());
    assert!(paths.is_empty());
}

#[test]
fn fraction_option_edge_values() {
    let lines: Vec<String> = vec!["reserved_space=.25".to_string()];
    let (o, _, _) = parse_options(&lines);
    assert_eq!(o.reserved_space, 250);
    let lines2: Vec<String> = vec!["reserved_space=0.9999".to_string()];
    let (o2, _, _) = parse_options(&lines2);
    assert_eq!(o2.reserved_space, 999);
    let lines3: Vec<String> = vec!["speed=2".to_string()];
    let (o3, _, _) = parse_options(&lines3);
    assert_eq!(o3.speed, 2000);
}

#[test]
fn origin_block_set_holds_each_origin_once() {
    let lines: Vec<String> = vec![
        "filter_source=gamer,gamer,bilibili".to_string(),
        "filter_source=bilibili,acfun".to_string(),
    ];
    let (_, f, _) = parse_options(&lines);
    assert_eq!(f.sources, vec![Source::Gamer, Source::Bilibili, Source::AcFun]);
}

#[test]
fn bilibili_rules_extend_keywords_selectively() {
    let mut kws = vec!["seed".to_string()];
    let rules = vec![
        BilibiliFilterRule { rule_type: 0, filter: "x".to_string(), opened: true },
        BilibiliFilterRule { rule_type: 1, filter: "y".to_string(), opened: true },
        BilibiliFilterRule { rule_type: 0, filter: "z".to_string(), opened: false },
    ];
    apply_bilibili_rules(&mut kws, &rules);
    assert_eq!(kws, vec!["seed".to_string(), "x".to_string()]);
}

#[test]
fn loaded_message_pluralizes_past_one() {
    assert_eq!(loaded(0), "Loaded 0 danmaku comment");
    assert_eq!(loaded(1), "Loaded 1 danmaku comment");
    assert_eq!(loaded(2), "Loaded 2 danmaku comments");
    assert_eq!(loaded(120), "Loaded 120 danmaku comments");
}
