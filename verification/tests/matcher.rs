//! The matcher: name parsing, URL construction, fingerprinting, and
//! play-URL extraction from the polymorphic search response.

use danmaku::error::DanmakuError;
use danmaku::playurl::{
    extract_play_url, extract_play_url_from_show, normalize_playlink, resolve_show_response,
    LongData, Playlink, Playlinks, PlaylinksTotal, PlayUrlOutcome, RawPlaylink, Row,
    SearchResponse, ShowRow,
};
use danmaku::query::{
    construct_search_url, danmaku_url, file_fingerprint, parse_name, resolve_match_candidates,
};

fn links(urls: &[&str]) -> Vec<Playlink> {
    urls.iter().map(|u| Playlink { url: u.to_string(), c: String::new() }).collect()
}

fn no_links() -> Playlinks {
    Playlinks { bilibili1: None, imgo: None, qiyi: None, qq: None, youku: None }
}

fn no_totals() -> PlaylinksTotal {
    PlaylinksTotal { bilibili1: None, imgo: None, qiyi: None, qq: None, youku: None }
}

fn response_with(row: Row) -> SearchResponse {
    SearchResponse { long_data: Some(LongData { rows: vec![row] }) }
}

#[test]
fn name_without_episode_parses_title_only() {
    let q = parse_name("showname").unwrap();
    assert_eq!(q.title, "showname");
    assert_eq!(q.season_number, None);
    assert_eq!(q.episode_number, None);
}

#[test]
fn name_with_season_episode_parses_numbers() {
    let q = parse_name("showname s2e7").unwrap();
    assert_eq!(q.title, "showname");
    assert_eq!(q.season_number, Some(2));
    assert_eq!(q.episode_number, Some(7));

    let q2 = parse_name("title 1:12").unwrap();
    assert_eq!(q2.title, "title");
    assert_eq!(q2.season_number, Some(1));
    assert_eq!(q2.episode_number, Some(12));
}

#[test]
fn malformed_names_are_rejected() {
    assert_eq!(parse_name("").unwrap_err(), DanmakuError::ArgumentError);
    assert_eq!(parse_name("- -").unwrap_err(), DanmakuError::ArgumentError);
    assert_eq!(parse_name("show s1ex").unwrap_err(), DanmakuError::ArgumentError);
}

#[test]
fn second_part_without_two_fields_is_just_ignored() {
    let q = parse_name("show part2").unwrap();
    assert_eq!(q.title, "show");
    assert_eq!(q.season_number, None);
    assert_eq!(q.episode_number, None);
}

#[test]
fn search_url_carries_title_and_season() {
    let q = parse_name("name s3e4").unwrap();
    assert_eq!(
        construct_search_url(&q),
        "https://api.so.360kan.com/index?force_v=1&kw=name3&from=&pageno=1&v_ap=1&tab=all"
    );
    let q2 = parse_name("name").unwrap();
    assert_eq!(
        construct_search_url(&q2),
        "https://api.so.360kan.com/index?force_v=1&kw=name&from=&pageno=1&v_ap=1&tab=all"
    );
}

#[test]
fn danmaku_url_wraps_the_play_identifier() {
    assert_eq!(
        danmaku_url("https://v.example/ep1"),
        "https://danmu.zxz.ee/?type=json&id=https://v.example/ep1"
    );
}

#[test]
fn fingerprint_is_the_hex_md5_of_head_and_name() {
    let empty: Vec<u8> = Vec::new();
    assert_eq!(file_fingerprint(&empty, ""), "d41d8cd98f00b204e9800998ecf8427e");
    assert_eq!(file_fingerprint(&empty, "abc"), "900150983cd24fb0d6963f7d28e17f72");
    let head = vec![b'a', b'b'];
    assert_eq!(file_fingerprint(&head, "c"), "900150983cd24fb0d6963f7d28e17f72");
}

#[test]
fn exactly_one_candidate_matches() {
    let none: Vec<String> = Vec::new();
    assert_eq!(resolve_match_candidates(&none).unwrap_err(), DanmakuError::NoMatch);
    let one = vec!["id-1".to_string()];
    assert_eq!(resolve_match_candidates(&one).unwrap(), "id-1");
    let two = vec!["id-1".to_string(), "id-2".to_string()];
    assert_eq!(resolve_match_candidates(&two).unwrap_err(), DanmakuError::AmbiguousMatch);
}

#[test]
fn bare_playlink_gets_an_empty_secondary() {
    let p = normalize_playlink(RawPlaylink::Bare("u1".to_string()));
    assert_eq!(p.url, "u1");
    assert_eq!(p.c, "");
    let p2 = normalize_playlink(RawPlaylink::Full("u2".to_string(), "c2".to_string()));
    assert_eq!(p2.url, "u2");
    assert_eq!(p2.c, "c2");
}

#[test]
fn series_row_selects_by_episode() {
    let resp = response_with(Row::Series(links(&["e1", "e2"])));
    match extract_play_url(&resp, 2).unwrap() {
        PlayUrlOutcome::Direct(u) => assert_eq!(u, "e2"),
        _ => panic!("expected a direct url"),
    }
    assert_eq!(extract_play_url(&resp, 3).unwrap_err(), DanmakuError::EpisodeOutOfRange);
    assert_eq!(extract_play_url(&resp, 0).unwrap_err(), DanmakuError::EpisodeOutOfRange);
}

#[test]
fn movie_row_picks_by_provider_priority() {
    let mut pl = no_links();
    pl.qiyi = Some("q-url".to_string());
    pl.youku = Some("y-url".to_string());
    let resp = response_with(Row::Movie(pl));
    match extract_play_url(&resp, 1).unwrap() {
        PlayUrlOutcome::Direct(u) => assert_eq!(u, "q-url"),
        _ => panic!("expected a direct url"),
    }
    let resp2 = response_with(Row::Movie(no_links()));
    assert_eq!(extract_play_url(&resp2, 1).unwrap_err(), DanmakuError::NoLinksAvailable);
}

#[test]
fn show_row_builds_the_secondary_lookup() {
    let mut totals = no_totals();
    totals.bilibili1 = Some(10);
    let sr = ShowRow { id: "123".to_string(), year: "2014".to_string(), playlinks_total: totals };
    let url = extract_play_url_from_show(&sr, 3).unwrap();
    assert_eq!(
        url,
        "https://api.so.360kan.com/episodeszongyi?site=bilibili1&y=2014&entid=123&offset=7&count=8&v_ap=1"
    );
    let resp = response_with(Row::Show(sr));
    match extract_play_url(&resp, 3).unwrap() {
        PlayUrlOutcome::ShowLookup(u) => assert_eq!(
            u,
            "https://api.so.360kan.com/episodeszongyi?site=bilibili1&y=2014&entid=123&offset=7&count=8&v_ap=1"
        ),
        _ => panic!("expected a show lookup"),
    }
}

#[test]
fn show_row_failures() {
    let sr = ShowRow {
        id: "123".to_string(),
        year: "2014".to_string(),
        playlinks_total: no_totals(),
    };
    assert_eq!(extract_play_url_from_show(&sr, 1).unwrap_err(), DanmakuError::VipSiteNotFound);

    let mut totals = no_totals();
    totals.qq = Some(5);
    let sr2 = ShowRow { id: "123".to_string(), year: "x".to_string(), playlinks_total: totals };
    assert_eq!(extract_play_url_from_show(&sr2, 1).unwrap_err(), DanmakuError::ResponseParseError);

    let mut totals3 = no_totals();
    totals3.qq = Some(5);
    let sr3 = ShowRow { id: "123".to_string(), year: "2020".to_string(), playlinks_total: totals3 };
    assert_eq!(extract_play_url_from_show(&sr3, 6).unwrap_err(), DanmakuError::EpisodeOutOfRange);
}

#[test]
fn empty_response_is_no_match() {
    let resp = SearchResponse { long_data: None };
    assert_eq!(extract_play_url(&resp, 1).unwrap_err(), DanmakuError::NoMatch);
    let resp2 = SearchResponse { long_data: Some(LongData { rows: Vec::new() }) };
    assert_eq!(extract_play_url(&resp2, 1).unwrap_err(), DanmakuError::NoMatch);
}

#[test]
fn show_lookup_response_takes_the_first_episode() {
    let none: Vec<String> = Vec::new();
    assert_eq!(resolve_show_response(&none).unwrap_err(), DanmakuError::NoMatch);
    let some = vec!["first".to_string(), "second".to_string()];
    assert_eq!(resolve_show_response(&some).unwrap(), "first");
}

#[test]
fn error_messages_cover_the_taxonomy() {
    assert_eq!(DanmakuError::NetworkError.message(), "network error");
    assert_eq!(DanmakuError::ResponseParseError.message(), "cannot parse the response");
    assert_eq!(DanmakuError::ConfigParseError.message(), "cannot parse the filter rules");
    assert_eq!(DanmakuError::ArgumentError.message(), "invalid argument");
}
