//! The matcher's front half: fingerprinting a local file, resolving the
//! fingerprint backend's candidate list, and parsing a free-form
//! "title season-episode" string into a search query with its URL.

use vstd::prelude::*;
use crate::error::DanmakuError;
use crate::text::{
    all_digits, chars_of, dec_seq, dec_val, parse_usize, push_dec, split_tokens, tokenize,
};
use crate::trusted::{hex_of, md5_of, md5_digest, string_from_chars, to_hex};
use vstd::string::StringSliceAdditionalSpecFns;

verus! {

/// A parsed media name: the search title and, when the name carried
/// them, a season and an episode number.
#[derive(Debug)]
pub struct SearchQuery {
    pub title: String,
    pub season_number: Option<usize>,
    pub episode_number: Option<usize>,
}

/// The separators that split a media name into its parts.
pub open spec fn name_seps() -> Seq<char> {
    seq!['-', ' ']
}

/// The separators that split the season-episode part.
pub open spec fn se_seps() -> Seq<char> {
    seq!['s', 'e', ':', '-', 'S', 'E', ' ']
}

/// What parsing a media name yields: the title piece and the optional
/// season and episode values, or nothing when the name has no parts or
/// its season-episode part is malformed.
pub open spec fn parse_name_spec(s: Seq<char>) -> Option<(Seq<char>, Option<int>, Option<int>)> {
    let ts = split_tokens(s, name_seps());
    if ts.len() == 0 {
        None
    } else if ts.len() >= 2 {
        let sub = split_tokens(ts[1], se_seps());
        if sub.len() >= 2 {
            if sub[0].len() >= 1 && all_digits(sub[0]) && dec_val(sub[0]) <= usize::MAX
                && sub[1].len() >= 1 && all_digits(sub[1]) && dec_val(sub[1]) <= usize::MAX {
                Some((ts[0], Some(dec_val(sub[0])), Some(dec_val(sub[1]))))
            } else {
                None
            }
        } else {
            Some((ts[0], None, None))
        }
    } else {
        Some((ts[0], None, None))
    }
}

/// Parse a free-form "title[-/space]season-episode" media name.
///
/// The first piece is the title; when a second piece splits into at
/// least two fields, those must be decimal season and episode numbers,
/// else the whole name is rejected.
#[verifier::loop_isolation(false)]
pub fn parse_name(name: &str) -> (r: Result<SearchQuery, DanmakuError>)
    ensures
        match r {
            Ok(q) => parse_name_spec(name@) == Some(
                (
                    q.title@,
                    match q.season_number {
                        Some(n) => Some(n as int),
                        None => None::<int>,
                    },
                    match q.episode_number {
                        Some(n) => Some(n as int),
                        None => None::<int>,
                    },
                ),
            ),
            Err(e) => parse_name_spec(name@) is None && e == DanmakuError::ArgumentError,
        },
{
    let v = chars_of(name);
    let seps1: Vec<char> = vec!['-', ' '];
    proof {
        assert(seps1@ =~= name_seps());
    }
    let parts = tokenize(&v, &seps1);
    if parts.len() == 0 {
        return Err(DanmakuError::ArgumentError);
    }
    proof {
        assert(parts.deep_view()[0] == parts@[0]@);
    }
    let title = string_from_chars(&parts[0]);
    let mut season_number: Option<usize> = None;
    let mut episode_number: Option<usize> = None;
    if parts.len() >= 2 {
        proof {
            assert(parts.deep_view()[1] == parts@[1]@);
        }
        let seps2: Vec<char> = vec!['s', 'e', ':', '-', 'S', 'E', ' '];
        proof {
            assert(seps2@ =~= se_seps());
        }
        let sub = tokenize(&parts[1], &seps2);
        if sub.len() >= 2 {
            proof {
                assert(sub.deep_view()[0] == sub@[0]@);
                assert(sub.deep_view()[1] == sub@[1]@);
            }
            match parse_usize(&sub[0]) {
                Some(se) => {
                    season_number = Some(se);
                },
                None => {
                    return Err(DanmakuError::ArgumentError);
                },
            }
            match parse_usize(&sub[1]) {
                Some(ep) => {
                    episode_number = Some(ep);
                },
                None => {
                    return Err(DanmakuError::ArgumentError);
                },
            }
        }
    }
    Ok(SearchQuery { title, season_number, episode_number })
}

impl SearchQuery {
    /// The episode the query asks for: the parsed number, or the first
    /// episode when the name named none.
    pub fn episode_or_default(&self) -> (e: usize)
        ensures
            e as int == match self.episode_number {
                Some(n) => n as int,
                None => 1,
            },
    {
        match self.episode_number {
            Some(n) => n,
            None => 1,
        }
    }
}

/// Build the search URL for a parsed query: the fixed endpoint, the
/// title, the season number appended right after it when present, and
/// the fixed trailing parameters.
pub fn construct_search_url(query: &SearchQuery) -> (r: String)
    ensures
        match query.season_number {
            Some(n) => r@ == "https://api.so.360kan.com/index?force_v=1&kw="@ + query.title@
                + dec_seq(n as nat) + "&from=&pageno=1&v_ap=1&tab=all"@,
            None => r@ == "https://api.so.360kan.com/index?force_v=1&kw="@ + query.title@
                + "&from=&pageno=1&v_ap=1&tab=all"@,
        },
{
    let mut s = String::new();
    s.append("https://api.so.360kan.com/index?force_v=1&kw=");
    s.append(query.title.as_str());
    match &query.season_number {
        Some(n) => {
            push_dec(&mut s, (*n) as u64);
        },
        None => {},
    }
    s.append("&from=&pageno=1&v_ap=1&tab=all");
    proof {
        if query.season_number is Some {
            assert(s@ =~= "https://api.so.360kan.com/index?force_v=1&kw="@ + query.title@
                + dec_seq(query.season_number->0 as nat) + "&from=&pageno=1&v_ap=1&tab=all"@);
        } else {
            assert(s@ =~= "https://api.so.360kan.com/index?force_v=1&kw="@ + query.title@
                + "&from=&pageno=1&v_ap=1&tab=all"@);
        }
    }
    s
}

/// The URL the raw comment records for a resolved play identifier are
/// fetched from.
pub fn danmaku_url(play_url: &str) -> (r: String)
    ensures
        r@ == "https://danmu.zxz.ee/?type=json&id="@ + play_url@,
{
    let mut s = String::new();
    s.append("https://danmu.zxz.ee/?type=json&id=");
    s.append(play_url);
    proof {
        assert(s@ =~= "https://danmu.zxz.ee/?type=json&id="@ + play_url@);
    }
    s
}

/// The content fingerprint of a media file: the hex MD5 digest of its
/// leading bytes followed by its file name's bytes.
pub fn file_fingerprint(head: &Vec<u8>, name: &str) -> (r: String)
    ensures
        r@ == hex_of(md5_of(head@ + name.spec_bytes())),
{
    let name_bytes = name.as_bytes_vec();
    let mut data: Vec<u8> = Vec::new();
    let mut i: usize = 0;
    while i < head.len()
        invariant
            i <= head@.len(),
            data@ == head@.take(i as int),
        decreases head@.len() - i,
    {
        data.push(head[i]);
        proof {
            assert(data@ =~= head@.take(i + 1));
        }
        i += 1;
    }
    proof {
        assert(head@.take(head@.len() as int) =~= head@);
    }
    let mut j: usize = 0;
    while j < name_bytes.len()
        invariant
            j <= name_bytes@.len(),
            data@ == head@ + name_bytes@.take(j as int),
        decreases name_bytes@.len() - j,
    {
        data.push(name_bytes[j]);
        proof {
            assert(data@ =~= head@ + name_bytes@.take(j + 1));
        }
        j += 1;
    }
    proof {
        assert(name_bytes@.take(name_bytes@.len() as int) =~= name_bytes@);
        assert(data@ =~= head@ + name.spec_bytes());
    }
    let digest = md5_digest(&data);
    to_hex(&digest)
}

/// Resolve the fingerprint backend's candidate list: exactly one
/// candidate is a match; none is `NoMatch`; several are
/// `AmbiguousMatch`, for the system never guesses among matches.
pub fn resolve_match_candidates(candidates: &Vec<String>) -> (r: Result<String, DanmakuError>)
    ensures
        candidates@.len() == 0 ==> r == Err::<String, DanmakuError>(DanmakuError::NoMatch),
        candidates@.len() == 1 ==> match r {
            Ok(id) => id@ == candidates@[0]@,
            Err(_) => false,
        },
        candidates@.len() > 1 ==> r == Err::<String, DanmakuError>(DanmakuError::AmbiguousMatch),
{
    if candidates.len() == 0 {
        Err(DanmakuError::NoMatch)
    } else if candidates.len() == 1 {
        Ok(candidates[0].clone())
    } else {
        Err(DanmakuError::AmbiguousMatch)
    }
}

} // verus!
