//! The matcher's back half: the decoded search response and the play
//! identifier it resolves to.  A response row is one of three shapes: a
//! series with per-episode links, a movie with named provider links, or
//! a show needing a secondary paginated lookup.

use vstd::prelude::*;
use crate::error::DanmakuError;
use crate::text::{all_digits, chars_of, dec_seq, dec_val, parse_usize, push_dec};

verus! {

/// One episode link of a series row.
#[derive(Debug, Clone)]
pub struct Playlink {
    pub url: String,
    pub c: String,
}

/// An episode link as decoded: the backend sends either a bare URL
/// string or a structured object.
#[derive(Debug, Clone)]
pub enum RawPlaylink {
    Bare(String),
    Full(String, String),
}

/// The named provider links of a movie row.
#[derive(Debug, Clone)]
pub struct Playlinks {
    pub bilibili1: Option<String>,
    pub imgo: Option<String>,
    pub qiyi: Option<String>,
    pub qq: Option<String>,
    pub youku: Option<String>,
}

/// The per-provider episode totals of a show row.
#[derive(Debug, Clone)]
pub struct PlaylinksTotal {
    pub bilibili1: Option<u32>,
    pub imgo: Option<u32>,
    pub qiyi: Option<u32>,
    pub qq: Option<u32>,
    pub youku: Option<u32>,
}

/// A show (variety/magazine) row: its identifier, year, and the known
/// per-provider episode totals.
#[derive(Debug, Clone)]
pub struct ShowRow {
    pub id: String,
    pub year: String,
    pub playlinks_total: PlaylinksTotal,
}

/// One polymorphic result row of the search response.
#[derive(Debug, Clone)]
pub enum Row {
    Series(Vec<Playlink>),
    Movie(Playlinks),
    Show(ShowRow),
}

/// The result rows of a search response.
#[derive(Debug, Clone)]
pub struct LongData {
    pub rows: Vec<Row>,
}

/// A decoded search response.
#[derive(Debug, Clone)]
pub struct SearchResponse {
    pub long_data: Option<LongData>,
}

/// What resolving the first row yields: a play identifier usable
/// directly, or the URL of the secondary lookup a show row requires.
#[derive(Debug, Clone)]
pub enum PlayUrlOutcome {
    Direct(String),
    ShowLookup(String),
}

/// The rule for a decoded episode link: a bare string is a structured
/// link whose secondary attribute is empty.
pub fn normalize_playlink(p: RawPlaylink) -> (r: Playlink)
    ensures
        match p {
            RawPlaylink::Bare(u) => r.url == u && r.c@.len() == 0,
            RawPlaylink::Full(u, c) => r.url == u && r.c == c,
        },
{
    match p {
        RawPlaylink::Bare(u) => Playlink { url: u, c: String::new() },
        RawPlaylink::Full(u, c) => Playlink { url: u, c },
    }
}

/// The provider link a movie row resolves to: the first present link
/// in the fixed priority order.
pub open spec fn movie_pick(pl: Playlinks) -> Option<Seq<char>> {
    if pl.bilibili1 is Some {
        Some(pl.bilibili1->0@)
    } else if pl.qiyi is Some {
        Some(pl.qiyi->0@)
    } else if pl.qq is Some {
        Some(pl.qq->0@)
    } else if pl.youku is Some {
        Some(pl.youku->0@)
    } else if pl.imgo is Some {
        Some(pl.imgo->0@)
    } else {
        None
    }
}

/// The provider a show lookup is keyed by: the first provider with a
/// known episode total, in the fixed field order.
pub open spec fn show_site(t: PlaylinksTotal) -> Option<Seq<char>> {
    if t.bilibili1 is Some {
        Some("bilibili1"@)
    } else if t.imgo is Some {
        Some("imgo"@)
    } else if t.qiyi is Some {
        Some("qiyi"@)
    } else if t.qq is Some {
        Some("qq"@)
    } else if t.youku is Some {
        Some("youku"@)
    } else {
        None
    }
}

/// The episode total a show lookup is bounded by: the first known
/// total in its own priority order, or zero.
pub open spec fn show_total(t: PlaylinksTotal) -> int {
    if t.bilibili1 is Some {
        t.bilibili1->0 as int
    } else if t.qq is Some {
        t.qq->0 as int
    } else if t.youku is Some {
        t.youku->0 as int
    } else if t.qiyi is Some {
        t.qiyi->0 as int
    } else if t.imgo is Some {
        t.imgo->0 as int
    } else {
        0
    }
}

/// A decimal field of a response parses when it is non-empty, all
/// digits, and fits an `i32`.
pub open spec fn parseable_i32(s: Seq<char>) -> bool {
    s.len() >= 1 && all_digits(s) && dec_val(s) <= i32::MAX
}

/// The secondary lookup URL of a show row.
pub open spec fn show_url_spec(site: Seq<char>, year: int, entid: int, offset: int) -> Seq<char> {
    "https://api.so.360kan.com/episodeszongyi?site="@ + site + "&y="@ + dec_seq(year as nat)
        + "&entid="@ + dec_seq(entid as nat) + "&offset="@ + dec_seq(offset as nat)
        + "&count=8&v_ap=1"@
}

/// What resolving a show row yields: the lookup URL, or the first
/// failure among a missing provider total, an unparsable year or
/// identifier, and an episode beyond the known total.
pub open spec fn show_lookup_spec(sr: ShowRow, ep: int) -> Result<Seq<char>, DanmakuError> {
    match show_site(sr.playlinks_total) {
        None => Err(DanmakuError::VipSiteNotFound),
        Some(site) => {
            if !parseable_i32(sr.year@) {
                Err(DanmakuError::ResponseParseError)
            } else if !parseable_i32(sr.id@) {
                Err(DanmakuError::ResponseParseError)
            } else {
                let total = show_total(sr.playlinks_total);
                if ep > total {
                    Err(DanmakuError::EpisodeOutOfRange)
                } else {
                    Ok(show_url_spec(site, dec_val(sr.year@), dec_val(sr.id@), total - ep))
                }
            }
        },
    }
}

/// What resolving the first response row yields: the flag says whether
/// the URL is the secondary show lookup rather than a play identifier.
pub open spec fn extract_spec(resp: SearchResponse, ep: int) -> Result<
    (bool, Seq<char>),
    DanmakuError,
> {
    match resp.long_data {
        None => Err(DanmakuError::NoMatch),
        Some(ld) => {
            if ld.rows@.len() == 0 {
                Err(DanmakuError::NoMatch)
            } else {
                match ld.rows@[0] {
                    Row::Series(links) => {
                        if 1 <= ep <= links@.len() {
                            Ok((false, links@[ep - 1].url@))
                        } else {
                            Err(DanmakuError::EpisodeOutOfRange)
                        }
                    },
                    Row::Movie(pl) => match movie_pick(pl) {
                        Some(u) => Ok((false, u)),
                        None => Err(DanmakuError::NoLinksAvailable),
                    },
                    Row::Show(sr) => match show_lookup_spec(sr, ep) {
                        Ok(u) => Ok((true, u)),
                        Err(e) => Err(e),
                    },
                }
            }
        },
    }
}

/// Parse a decimal response field that must fit an `i32`.
fn parse_field_i32(s: &String) -> (r: Option<u32>)
    ensures
        r is Some <==> parseable_i32(s@),
        r is Some ==> r->0 == dec_val(s@),
{
    let v = chars_of(s.as_str());
    match parse_usize(&v) {
        Some(n) => {
            if n <= i32::MAX as usize {
                Some(n as u32)
            } else {
                None
            }
        },
        None => None,
    }
}

/// Resolve a show row to its secondary lookup URL (see
/// `show_lookup_spec`).
pub fn extract_play_url_from_show(show_row: &ShowRow, episode_number: usize) -> (r: Result<
    String,
    DanmakuError,
>)
    ensures
        match r {
            Ok(u) => show_lookup_spec(*show_row, episode_number as int) == Ok::<_, DanmakuError>(
                u@,
            ),
            Err(e) => show_lookup_spec(*show_row, episode_number as int) == Err::<Seq<char>, _>(e),
        },
{
    let t = &show_row.playlinks_total;
    let site: &str;
    if t.bilibili1.is_some() {
        site = "bilibili1";
    } else if t.imgo.is_some() {
        site = "imgo";
    } else if t.qiyi.is_some() {
        site = "qiyi";
    } else if t.qq.is_some() {
        site = "qq";
    } else if t.youku.is_some() {
        site = "youku";
    } else {
        return Err(DanmakuError::VipSiteNotFound);
    }
    let year: u32;
    match parse_field_i32(&show_row.year) {
        Some(y) => {
            year = y;
        },
        None => {
            return Err(DanmakuError::ResponseParseError);
        },
    }
    let entid: u32;
    match parse_field_i32(&show_row.id) {
        Some(v) => {
            entid = v;
        },
        None => {
            return Err(DanmakuError::ResponseParseError);
        },
    }
    let total: u32;
    if let Some(n) = t.bilibili1 {
        total = n;
    } else if let Some(n) = t.qq {
        total = n;
    } else if let Some(n) = t.youku {
        total = n;
    } else if let Some(n) = t.qiyi {
        total = n;
    } else if let Some(n) = t.imgo {
        total = n;
    } else {
        total = 0;
    }
    if episode_number > total as usize {
        return Err(DanmakuError::EpisodeOutOfRange);
    }
    let offset: u64 = (total as u64) - (episode_number as u64);
    let mut s = String::new();
    s.append("https://api.so.360kan.com/episodeszongyi?site=");
    s.append(site);
    s.append("&y=");
    push_dec(&mut s, year as u64);
    s.append("&entid=");
    push_dec(&mut s, entid as u64);
    s.append("&offset=");
    push_dec(&mut s, offset);
    s.append("&count=8&v_ap=1");
    proof {
        assert(s@ =~= show_url_spec(
            show_site(show_row.playlinks_total)->0,
            dec_val(show_row.year@),
            dec_val(show_row.id@),
            show_total(show_row.playlinks_total) - episode_number as int,
        ));
    }
    Ok(s)
}

/// Resolve the first row of a search response (see `extract_spec`).
pub fn extract_play_url(resp: &SearchResponse, episode_number: usize) -> (r: Result<
    PlayUrlOutcome,
    DanmakuError,
>)
    ensures
        match r {
            Ok(PlayUrlOutcome::Direct(u)) => extract_spec(*resp, episode_number as int)
                == Ok::<_, DanmakuError>((false, u@)),
            Ok(PlayUrlOutcome::ShowLookup(u)) => extract_spec(*resp, episode_number as int)
                == Ok::<_, DanmakuError>((true, u@)),
            Err(e) => extract_spec(*resp, episode_number as int) == Err::<(bool, Seq<char>), _>(e),
        },
{
    let ld = match &resp.long_data {
        Some(ld) => ld,
        None => {
            return Err(DanmakuError::NoMatch);
        },
    };
    if ld.rows.len() == 0 {
        return Err(DanmakuError::NoMatch);
    }
    match &ld.rows[0] {
        Row::Series(links) => {
            if 1 <= episode_number && episode_number <= links.len() {
                Ok(PlayUrlOutcome::Direct(links[episode_number - 1].url.clone()))
            } else {
                Err(DanmakuError::EpisodeOutOfRange)
            }
        },
        Row::Movie(pl) => {
            if let Some(u) = &pl.bilibili1 {
                Ok(PlayUrlOutcome::Direct(u.clone()))
            } else if let Some(u) = &pl.qiyi {
                Ok(PlayUrlOutcome::Direct(u.clone()))
            } else if let Some(u) = &pl.qq {
                Ok(PlayUrlOutcome::Direct(u.clone()))
            } else if let Some(u) = &pl.youku {
                Ok(PlayUrlOutcome::Direct(u.clone()))
            } else if let Some(u) = &pl.imgo {
                Ok(PlayUrlOutcome::Direct(u.clone()))
            } else {
                Err(DanmakuError::NoLinksAvailable)
            }
        },
        Row::Show(sr) => {
            match extract_play_url_from_show(sr, episode_number) {
                Ok(u) => Ok(PlayUrlOutcome::ShowLookup(u)),
                Err(e) => Err(e),
            }
        },
    }
}

/// Resolve the secondary show lookup's response: the first listed
/// episode's URL, or `NoMatch` when the list is empty.
pub fn resolve_show_response(urls: &Vec<String>) -> (r: Result<String, DanmakuError>)
    ensures
        match r {
            Ok(u) => urls@.len() >= 1 && u@ == urls@[0]@,
            Err(e) => urls@.len() == 0 && e == DanmakuError::NoMatch,
        },
{
    if urls.len() == 0 {
        Err(DanmakuError::NoMatch)
    } else {
        Ok(urls[0].clone())
    }
}

} // verus!
