//! Display options and the comment filter.
//!
//! Fractional host options are carried in integer units: `reserved_space`
//! and `speed` in thousandths (a `speed` of 1000 is normal playback).

use vstd::prelude::*;
use crate::source::{source_of_name, source_from_name, Source};
use crate::text::{all_digits, chars_of, dec_val, digit_of, eq_str, parse_usize, split_keep, split_keep_spec};
use crate::trusted::string_from_chars;

verus! {

/// Display options for the overlay.
#[derive(Debug, Clone, Copy, PartialEq, Eq, Structural)]
pub struct Options {
    /// Font height in pixels; positive.
    pub font_size: u16,
    /// Overlay alpha byte.
    pub transparency: u8,
    /// Fraction of the viewport height kept free of lanes, in
    /// thousandths; below one.
    pub reserved_space: u16,
    /// Global scroll-speed factor in thousandths; positive.
    pub speed: u32,
    /// Drop a comment that finds no free lane instead of overlapping.
    pub no_overlap: bool,
}

impl Options {
    /// The bounds every option set satisfies.
    pub open spec fn wf(self) -> bool {
        1 <= self.font_size && self.reserved_space <= 999 && 1 <= self.speed
    }
}

impl Default for Options {
    /// The stock options: font 40 px, alpha 0x30, no reserved space,
    /// normal speed, overlap forbidden.
    fn default() -> (r: Self)
        ensures
            r == (Options {
                font_size: 40,
                transparency: 0x30,
                reserved_space: 0,
                speed: 1000,
                no_overlap: true,
            }),
            r.wf(),
    {
        Options { font_size: 40, transparency: 0x30, reserved_space: 0, speed: 1000, no_overlap: true }
    }
}

/// The comment filter: a substring block-list applied once at ingestion,
/// a static origin block-set, and an optional live origin override that
/// replaces the static set wholesale while present.
#[derive(Debug)]
pub struct Filter {
    pub keywords: Vec<String>,
    pub sources: Vec<Source>,
    pub sources_rt: Option<Vec<Source>>,
}

impl Default for Filter {
    /// The empty filter: nothing blocked, no override.
    fn default() -> (r: Self)
        ensures
            r.keywords@.len() == 0,
            r.sources@.len() == 0,
            r.sources_rt is None,
    {
        Filter { keywords: Vec::new(), sources: Vec::new(), sources_rt: None }
    }
}

/// Is origin `s` blocked under the filter: by the live override while one
/// is present, else by the static set.
pub open spec fn blocked_spec(f: &Filter, s: Source) -> bool {
    match f.sources_rt {
        Some(rt) => rt@.contains(s),
        None => f.sources@.contains(s),
    }
}

/// With the override absent, blocking is exactly the static decision.
pub proof fn lemma_no_override_is_static(f: &Filter, s: Source)
    requires
        f.sources_rt is None,
    ensures
        blocked_spec(f, s) == f.sources@.contains(s),
{
}

/// Does the sequence hold `s`?
pub fn sources_contain(v: &Vec<Source>, s: Source) -> (r: bool)
    ensures
        r <==> v@.contains(s),
{
    let mut i: usize = 0;
    while i < v.len()
        invariant
            i <= v@.len(),
            forall|k: int| 0 <= k < i ==> v@[k] != s,
        decreases v@.len() - i,
    {
        if v[i] == s {
            return true;
        }
        i += 1;
    }
    false
}

/// Is origin `s` blocked under the filter?
pub fn source_blocked(f: &Filter, s: Source) -> (r: bool)
    ensures
        r == blocked_spec(f, s),
{
    match &f.sources_rt {
        Some(rt) => sources_contain(rt, s),
        None => sources_contain(&f.sources, s),
    }
}

/// Where the first `c` at or after `i` stands in `s`, or `-1`.
pub open spec fn find_char(s: Seq<char>, c: char, i: int) -> int
    decreases s.len() - i,
{
    if i < 0 || i >= s.len() {
        -1
    } else if s[i] == c {
        i
    } else {
        find_char(s, c, i + 1)
    }
}

/// The first three fraction digits, zero-padded: what a decimal
/// fraction contributes in thousandths.
pub open spec fn pad3(s: Seq<char>) -> Seq<char> {
    (s + seq!['0', '0', '0']).take(3)
}

/// A fraction in `[0, 1)` written as `0`, `0.d...` or `.d...`, read in
/// thousandths; anything else is rejected.
pub open spec fn frac_pm(s: Seq<char>) -> Option<int> {
    let k = find_char(s, '.', 0);
    if k < 0 {
        if s.len() >= 1 && all_digits(s) && dec_val(s) == 0 {
            Some(0)
        } else {
            None
        }
    } else {
        let ip = s.take(k);
        let fp = s.skip(k + 1);
        if all_digits(ip) && all_digits(fp) && (ip.len() >= 1 || fp.len() >= 1) && dec_val(ip)
            == 0 {
            Some(dec_val(pad3(fp)))
        } else {
            None
        }
    }
}

/// A positive decimal number with up to three meaningful fraction
/// digits, read in thousandths; zero, and anything unreadable or too
/// large to carry, is rejected.
pub open spec fn speed_pm(s: Seq<char>) -> Option<int> {
    let k = find_char(s, '.', 0);
    if k < 0 {
        if s.len() >= 1 && all_digits(s) && 1 <= dec_val(s) <= 4_000_000 {
            Some(dec_val(s) * 1000)
        } else {
            None
        }
    } else {
        let ip = s.take(k);
        let fp = s.skip(k + 1);
        if all_digits(ip) && all_digits(fp) && (ip.len() >= 1 || fp.len() >= 1) && dec_val(ip)
            <= 4_000_000 && dec_val(ip) * 1000 + dec_val(pad3(fp)) >= 1 {
            Some(dec_val(ip) * 1000 + dec_val(pad3(fp)))
        } else {
            None
        }
    }
}

/// No origin stands twice: the invariant the origin block-set keeps,
/// as a set would.
pub open spec fn distinct_sources(s: Seq<Source>) -> bool {
    forall|i: int, j: int| 0 <= i < j < s.len() ==> #[trigger] s[i] != #[trigger] s[j]
}

/// The origin block-set extended with the names of a comma-split list:
/// unknown names are dropped, and an origin already present is not
/// added again.
pub open spec fn add_sources(acc: Seq<Source>, pieces: Seq<Seq<char>>) -> Seq<Source>
    decreases pieces.len(),
{
    if pieces.len() == 0 {
        acc
    } else {
        let prev = add_sources(acc, pieces.drop_last());
        let src = source_of_name(pieces.last());
        if src != Source::Unknown && !prev.contains(src) {
            prev.push(src)
        } else {
            prev
        }
    }
}

/// The origins named in a comma-split list, unknown names dropped,
/// each at most once.
pub open spec fn sources_of_csv(pieces: Seq<Seq<char>>) -> Seq<Source> {
    add_sources(Seq::<Source>::empty(), pieces)
}

/// Extending a distinct origin set keeps it distinct.
pub proof fn lemma_add_sources_distinct(acc: Seq<Source>, pieces: Seq<Seq<char>>)
    requires
        distinct_sources(acc),
    ensures
        distinct_sources(add_sources(acc, pieces)),
    decreases pieces.len(),
{
    if pieces.len() > 0 {
        lemma_add_sources_distinct(acc, pieces.drop_last());
        let prev = add_sources(acc, pieces.drop_last());
        let src = source_of_name(pieces.last());
        if src != Source::Unknown && !prev.contains(src) {
            assert forall|i: int, j: int|
                0 <= i < j < prev.push(src).len() implies #[trigger] prev.push(src)[i]
                != #[trigger] prev.push(src)[j] by {
                if j == prev.len() {
                    assert(prev.push(src)[i] == prev[i]);
                    assert(prev.contains(prev[i]));
                }
            }
        }
    }
}

/// One option line applied to the accumulated state.  A line starting
/// with `#`, without `=`, with an unknown key or with an unreadable
/// value changes nothing.
pub open spec fn apply_line(
    st: (Options, Seq<Seq<char>>, Seq<Source>, Seq<Seq<char>>),
    line: Seq<char>,
) -> (Options, Seq<Seq<char>>, Seq<Source>, Seq<Seq<char>>) {
    if line.len() >= 1 && line[0] == '#' {
        st
    } else {
        let k = find_char(line, '=', 0);
        if k < 0 {
            st
        } else {
            let key = line.take(k);
            let value = line.skip(k + 1);
            if key == "font_size"@ {
                if value.len() >= 1 && all_digits(value) && 1 <= dec_val(value) <= u16::MAX {
                    (
                        Options { font_size: dec_val(value) as u16, ..st.0 },
                        st.1,
                        st.2,
                        st.3,
                    )
                } else {
                    st
                }
            } else if key == "transparency"@ {
                if value.len() >= 1 && all_digits(value) && dec_val(value) <= u8::MAX {
                    (
                        Options { transparency: dec_val(value) as u8, ..st.0 },
                        st.1,
                        st.2,
                        st.3,
                    )
                } else {
                    st
                }
            } else if key == "reserved_space"@ {
                match frac_pm(value) {
                    Some(pm) => (
                        Options { reserved_space: pm as u16, ..st.0 },
                        st.1,
                        st.2,
                        st.3,
                    ),
                    None => st,
                }
            } else if key == "speed"@ {
                match speed_pm(value) {
                    Some(pm) => (Options { speed: pm as u32, ..st.0 }, st.1, st.2, st.3),
                    None => st,
                }
            } else if key == "no_overlap"@ {
                if value == "yes"@ {
                    (Options { no_overlap: true, ..st.0 }, st.1, st.2, st.3)
                } else if value == "no"@ {
                    (Options { no_overlap: false, ..st.0 }, st.1, st.2, st.3)
                } else {
                    st
                }
            } else if key == "filter"@ {
                if value.len() >= 1 {
                    (st.0, st.1 + split_keep_spec(value, ','), st.2, st.3)
                } else {
                    st
                }
            } else if key == "filter_source"@ {
                if value.len() >= 1 {
                    (st.0, st.1, add_sources(st.2, split_keep_spec(value, ',')), st.3)
                } else {
                    st
                }
            } else if key == "filter_bilibili"@ {
                if value.len() >= 1 {
                    (st.0, st.1, st.2, st.3.push(value))
                } else {
                    st
                }
            } else {
                st
            }
        }
    }
}

/// All option lines applied in order, from the stock options and an
/// empty filter.
pub open spec fn opts_fold(lines: Seq<Seq<char>>) -> (
    Options,
    Seq<Seq<char>>,
    Seq<Source>,
    Seq<Seq<char>>,
)
    decreases lines.len(),
{
    if lines.len() == 0 {
        (
            Options {
                font_size: 40,
                transparency: 0x30,
                reserved_space: 0,
                speed: 1000,
                no_overlap: true,
            },
            Seq::<Seq<char>>::empty(),
            Seq::<Source>::empty(),
            Seq::<Seq<char>>::empty(),
        )
    } else {
        apply_line(opts_fold(lines.drop_last()), lines.last())
    }
}

/// The folded origin block-set is always distinct.
pub proof fn lemma_opts_fold_distinct(lines: Seq<Seq<char>>)
    ensures
        distinct_sources(opts_fold(lines).2),
    decreases lines.len(),
{
    if lines.len() > 0 {
        lemma_opts_fold_distinct(lines.drop_last());
        let st = opts_fold(lines.drop_last());
        let line = lines.last();
        if !(line.len() >= 1 && line[0] == '#') {
            let k = find_char(line, '=', 0);
            if k >= 0 {
                let key = line.take(k);
                let value = line.skip(k + 1);
                if key == "filter_source"@ && value.len() >= 1 {
                    lemma_add_sources_distinct(st.2, split_keep_spec(value, ','));
                }
            }
        }
    }
}

/// One filter rule of an external rule file: only text rules
/// (`rule_type` zero) that are switched on contribute their pattern.
#[derive(Debug, Clone)]
pub struct BilibiliFilterRule {
    pub rule_type: usize,
    pub filter: String,
    pub opened: bool,
}

/// The keyword patterns an external rule list contributes.
pub open spec fn bilibili_keywords(rules: Seq<BilibiliFilterRule>) -> Seq<Seq<char>>
    decreases rules.len(),
{
    if rules.len() == 0 {
        Seq::<Seq<char>>::empty()
    } else {
        bilibili_keywords(rules.drop_last()) + if rules.last().rule_type == 0
            && rules.last().opened {
            seq![rules.last().filter@]
        } else {
            Seq::<Seq<char>>::empty()
        }
    }
}

/// Extend the keyword block-list with an external rule list's enabled
/// text rules.
#[verifier::loop_isolation(false)]
pub fn apply_bilibili_rules(keywords: &mut Vec<String>, rules: &Vec<BilibiliFilterRule>)
    ensures
        final(keywords).deep_view() == old(keywords).deep_view() + bilibili_keywords(rules@),
{
    let ghost orig = keywords.deep_view();
    let mut i: usize = 0;
    while i < rules.len()
        invariant
            i <= rules@.len(),
            keywords.deep_view() == orig + bilibili_keywords(rules@.take(i as int)),
        decreases rules@.len() - i,
    {
        proof {
            assert(rules@.take(i + 1).drop_last() =~= rules@.take(i as int));
            assert(rules@.take(i + 1).last() == rules@[i as int]);
        }
        let ghost prev = keywords.deep_view();
        if rules[i].rule_type == 0 && rules[i].opened {
            keywords.push(rules[i].filter.clone());
            proof {
                assert(keywords.deep_view() =~~= prev.push(rules@[i as int].filter@));
                assert(keywords.deep_view() =~~= orig + bilibili_keywords(rules@.take(i + 1)));
            }
        } else {
            proof {
                assert(keywords.deep_view() =~~= orig + bilibili_keywords(rules@.take(i + 1)));
            }
        }
        i += 1;
    }
    proof {
        assert(rules@.take(rules@.len() as int) =~= rules@);
    }
}

/// Where the first `c` of `v` stands, if anywhere.
#[verifier::loop_isolation(false)]
fn find_char_exec(v: &Vec<char>, c: char) -> (r: Option<usize>)
    ensures
        match r {
            Some(k) => k < v@.len() && find_char(v@, c, 0) == k as int,
            None => find_char(v@, c, 0) == -1,
        },
{
    let mut j: usize = 0;
    while j < v.len()
        invariant
            j <= v@.len(),
            find_char(v@, c, 0) == find_char(v@, c, j as int),
        decreases v@.len() - j,
    {
        if v[j] == c {
            return Some(j);
        }
        proof {
            assert(find_char(v@, c, j as int) == find_char(v@, c, j + 1));
        }
        j += 1;
    }
    None
}

/// The piece of `v` from `a` up to `b`.
#[verifier::loop_isolation(false)]
fn subrange_chars(v: &Vec<char>, a: usize, b: usize) -> (r: Vec<char>)
    requires
        a <= b <= v@.len(),
    ensures
        r@ == v@.subrange(a as int, b as int),
{
    let mut r: Vec<char> = Vec::new();
    proof {
        assert(r@ =~= v@.subrange(a as int, a as int));
    }
    let mut k: usize = a;
    while k < b
        invariant
            a <= k <= b,
            r@ == v@.subrange(a as int, k as int),
        decreases b - k,
    {
        r.push(v[k]);
        proof {
            assert(r@ =~= v@.subrange(a as int, k + 1));
        }
        k += 1;
    }
    r
}

/// Read a fraction value in thousandths (see `frac_pm`).
#[verifier::loop_isolation(false)]
fn parse_frac_pm(v: &Vec<char>) -> (r: Option<u16>)
    ensures
        match r {
            Some(pm) => frac_pm(v@) == Some(pm as int) && pm <= 999,
            None => frac_pm(v@) is None,
        },
{
    match find_char_exec(v, '.') {
        None => {
            match parse_usize(v) {
                Some(n) => {
                    if n == 0 {
                        Some(0)
                    } else {
                        None
                    }
                },
                None => None,
            }
        },
        Some(k) => {
            let n = v.len();
            let ip = subrange_chars(v, 0, k);
            let fp = subrange_chars(v, k + 1, n);
            proof {
                assert(ip@ =~= v@.take(k as int));
                assert(fp@ =~= v@.skip(k + 1));
            }
            if ip.len() == 0 && fp.len() == 0 {
                return None;
            }
            if ip.len() > 0 {
                match parse_usize(&ip) {
                    Some(n) => {
                        if n != 0 {
                            return None;
                        }
                    },
                    None => {
                        return None;
                    },
                }
            }
            match padded3_value(&fp) {
                Some(pm) => Some(pm),
                None => None,
            }
        },
    }
}

/// A three-digit sequence denotes at most 999.
proof fn lemma_dec3(s: Seq<char>)
    requires
        s.len() == 3,
        all_digits(s),
    ensures
        0 <= dec_val(s) <= 999,
{
    let s2 = s.drop_last();
    let s1 = s2.drop_last();
    assert(s1.drop_last().len() == 0);
    assert(dec_val(s1.drop_last()) == 0);
    assert(dec_val(s1) == digit_of(s1.last()));
    assert(dec_val(s2) == dec_val(s1) * 10 + digit_of(s2.last()));
    assert(dec_val(s) == dec_val(s2) * 10 + digit_of(s.last()));
    assert(s1.last() == s[0] && s2.last() == s[1] && s.last() == s[2]);
    assert(crate::text::is_digit(s[0]) && crate::text::is_digit(s[1]) && crate::text::is_digit(
        s[2],
    ));
}

/// The value of the first three fraction digits, zero-padded; `None`
/// unless the piece is all digits.
#[verifier::loop_isolation(false)]
fn padded3_value(fp: &Vec<char>) -> (r: Option<u16>)
    ensures
        match r {
            Some(pm) => all_digits(fp@) && pm == dec_val(pad3(fp@)) && pm <= 999,
            None => !all_digits(fp@),
        },
{
    let mut p: Vec<char> = Vec::new();
    let mut k: usize = 0;
    while k < fp.len()
        invariant
            k <= fp@.len(),
            p@.len() == if k < 3 {
                k as int
            } else {
                3
            },
            p@ == (fp@ + seq!['0', '0', '0']).take(p@.len() as int),
            forall|k2: int| 0 <= k2 < k ==> crate::text::is_digit(#[trigger] fp@[k2]),
        decreases fp@.len() - k,
    {
        let c = fp[k];
        if !('0' <= c && c <= '9') {
            return None;
        }
        if k < 3 {
            p.push(c);
            proof {
                assert(p@ =~= (fp@ + seq!['0', '0', '0']).take(p@.len() as int));
            }
        }
        k += 1;
    }
    while p.len() < 3
        invariant
            p@.len() <= 3,
            p@ == (fp@ + seq!['0', '0', '0']).take(p@.len() as int),
            p@.len() >= fp@.len() || p@.len() == 3,
            all_digits(fp@),
        decreases 3 - p@.len(),
    {
        p.push('0');
        proof {
            assert(p@ =~= (fp@ + seq!['0', '0', '0']).take(p@.len() as int));
        }
    }
    proof {
        assert(p@ =~= pad3(fp@));
        assert(all_digits(p@)) by {
            assert forall|k2: int| 0 <= k2 < p@.len() implies crate::text::is_digit(
                #[trigger] p@[k2],
            ) by {
                if k2 < fp@.len() {
                    assert(p@[k2] == fp@[k2]);
                } else {
                    assert(p@[k2] == '0');
                }
            }
        }
        lemma_dec3(p@);
    }
    match parse_usize(&p) {
        Some(n) => Some(n as u16),
        None => {
            proof {
                assert(false);
            }
            None
        },
    }
}

/// Read a positive speed value in thousandths (see `speed_pm`).
#[verifier::loop_isolation(false)]
fn parse_speed_pm(v: &Vec<char>) -> (r: Option<u32>)
    ensures
        match r {
            Some(pm) => speed_pm(v@) == Some(pm as int) && 1 <= pm,
            None => speed_pm(v@) is None,
        },
{
    match find_char_exec(v, '.') {
        None => {
            match parse_usize(v) {
                Some(n) => {
                    if 1 <= n && n <= 4_000_000 {
                        Some((n as u32) * 1000)
                    } else {
                        None
                    }
                },
                None => None,
            }
        },
        Some(k) => {
            let n = v.len();
            let ip = subrange_chars(v, 0, k);
            let fp = subrange_chars(v, k + 1, n);
            proof {
                assert(ip@ =~= v@.take(k as int));
                assert(fp@ =~= v@.skip(k + 1));
            }
            if ip.len() == 0 && fp.len() == 0 {
                return None;
            }
            let mut whole: u32 = 0;
            if ip.len() > 0 {
                match parse_usize(&ip) {
                    Some(n) => {
                        if n > 4_000_000 {
                            return None;
                        }
                        whole = n as u32;
                    },
                    None => {
                        return None;
                    },
                }
            }
            match padded3_value(&fp) {
                Some(f) => {
                    let pm: u32 = whole * 1000 + (f as u32);
                    if pm == 0 {
                        None
                    } else {
                        Some(pm)
                    }
                },
                None => None,
            }
        },
    }
}

/// Read the option lines of the host's configuration file: the display
/// options, the keyword block-list, the static origin block-set (with
/// no live override), and the paths of filter-rule files still to be
/// read, exactly as `opts_fold` accumulates them.
#[verifier::loop_isolation(false)]
#[verifier::rlimit(100)]
pub fn parse_options(lines: &Vec<String>) -> (r: (Options, Filter, Vec<String>))
    ensures
        r.0 == opts_fold(lines.deep_view()).0,
        r.1.keywords.deep_view() == opts_fold(lines.deep_view()).1,
        r.1.sources@ == opts_fold(lines.deep_view()).2,
        distinct_sources(r.1.sources@),
        r.1.sources_rt is None,
        r.2.deep_view() == opts_fold(lines.deep_view()).3,
{
    let mut opts = Options {
        font_size: 40,
        transparency: 0x30,
        reserved_space: 0,
        speed: 1000,
        no_overlap: true,
    };
    let mut kws: Vec<String> = Vec::new();
    let mut srcs: Vec<Source> = Vec::new();
    let mut paths: Vec<String> = Vec::new();
    proof {
        assert(kws.deep_view() =~~= opts_fold(lines.deep_view().take(0)).1);
        assert(srcs@ =~= opts_fold(lines.deep_view().take(0)).2);
        assert(paths.deep_view() =~~= opts_fold(lines.deep_view().take(0)).3);
    }
    let mut i: usize = 0;
    while i < lines.len()
        invariant
            i <= lines@.len(),
            opts == opts_fold(lines.deep_view().take(i as int)).0,
            kws.deep_view() == opts_fold(lines.deep_view().take(i as int)).1,
            srcs@ == opts_fold(lines.deep_view().take(i as int)).2,
            paths.deep_view() == opts_fold(lines.deep_view().take(i as int)).3,
        decreases lines@.len() - i,
    {
        proof {
            assert(lines.deep_view().take(i + 1).drop_last() =~= lines.deep_view().take(i as int));
            assert(lines.deep_view().take(i + 1).last() == lines.deep_view()[i as int]);
            assert(lines.deep_view()[i as int] == lines@[i as int]@);
        }
        let v = chars_of(lines[i].as_str());
        let ghost st = (
            opts_fold(lines.deep_view().take(i as int)).0,
            opts_fold(lines.deep_view().take(i as int)).1,
            opts_fold(lines.deep_view().take(i as int)).2,
            opts_fold(lines.deep_view().take(i as int)).3,
        );
        if v.len() >= 1 && v[0] == '#' {
            i += 1;
            continue;
        }
        let keq = find_char_exec(&v, '=');
        match keq {
            None => {
                i += 1;
                continue;
            },
            Some(k) => {
                let key = subrange_chars(&v, 0, k);
                let value = subrange_chars(&v, k + 1, v.len());
                proof {
                    assert(key@ =~= v@.take(k as int));
                    assert(value@ =~= v@.skip(k + 1));
                }
                if eq_str(&key, "font_size") {
                    match parse_usize(&value) {
                        Some(n) => {
                            if 1 <= n && n <= u16::MAX as usize {
                                opts.font_size = n as u16;
                            }
                        },
                        None => {},
                    }
                } else if eq_str(&key, "transparency") {
                    match parse_usize(&value) {
                        Some(n) => {
                            if n <= u8::MAX as usize {
                                opts.transparency = n as u8;
                            }
                        },
                        None => {},
                    }
                } else if eq_str(&key, "reserved_space") {
                    match parse_frac_pm(&value) {
                        Some(pm) => {
                            opts.reserved_space = pm;
                        },
                        None => {},
                    }
                } else if eq_str(&key, "speed") {
                    match parse_speed_pm(&value) {
                        Some(pm) => {
                            opts.speed = pm;
                        },
                        None => {},
                    }
                } else if eq_str(&key, "no_overlap") {
                    if eq_str(&value, "yes") {
                        opts.no_overlap = true;
                    } else if eq_str(&value, "no") {
                        opts.no_overlap = false;
                    }
                } else if eq_str(&key, "filter") {
                    if value.len() >= 1 {
                        let pieces = split_keep(&value, ',');
                        let ghost kw0 = kws.deep_view();
                        let mut j: usize = 0;
                        while j < pieces.len()
                            invariant
                                j <= pieces@.len(),
                                kws.deep_view() == kw0 + pieces.deep_view().take(j as int),
                            decreases pieces@.len() - j,
                        {
                            let ghost prev = kws.deep_view();
                            kws.push(string_from_chars(&pieces[j]));
                            proof {
                                assert(kws.deep_view() =~~= prev.push(pieces.deep_view()[j as int]));
                                assert(kws.deep_view() =~~= kw0 + pieces.deep_view().take(j + 1));
                            }
                            j += 1;
                        }
                        proof {
                            assert(pieces.deep_view().take(pieces@.len() as int) =~= pieces.deep_view());
                            assert(kws.deep_view() =~~= st.1 + split_keep_spec(value@, ','));
                        }
                    }
                } else if eq_str(&key, "filter_source") {
                    if value.len() >= 1 {
                        let pieces = split_keep(&value, ',');
                        let ghost s0 = srcs@;
                        let mut j: usize = 0;
                        while j < pieces.len()
                            invariant
                                j <= pieces@.len(),
                                srcs@ == add_sources(s0, pieces.deep_view().take(j as int)),
                            decreases pieces@.len() - j,
                        {
                            proof {
                                assert(pieces.deep_view().take(j + 1).drop_last() =~= pieces.deep_view().take(j as int));
                                assert(pieces.deep_view().take(j + 1).last() == pieces.deep_view()[j as int]);
                                assert(pieces.deep_view()[j as int] == pieces@[j as int]@);
                            }
                            let src = source_from_name(&pieces[j]);
                            if src != Source::Unknown && !sources_contain(&srcs, src) {
                                srcs.push(src);
                            }
                            proof {
                                assert(srcs@ =~= add_sources(s0, pieces.deep_view().take(j + 1)));
                            }
                            j += 1;
                        }
                        proof {
                            assert(pieces.deep_view().take(pieces@.len() as int) =~= pieces.deep_view());
                            assert(srcs@ =~= add_sources(st.2, split_keep_spec(value@, ',')));
                        }
                    }
                } else if eq_str(&key, "filter_bilibili") {
                    if value.len() >= 1 {
                        let ghost prev = paths.deep_view();
                        paths.push(string_from_chars(&value));
                        proof {
                            assert(paths.deep_view() =~~= prev.push(value@));
                        }
                    }
                }
                i += 1;
            },
        }
    }
    proof {
        assert(lines.deep_view().take(lines@.len() as int) =~= lines.deep_view());
        lemma_opts_fold_distinct(lines.deep_view());
    }
    (opts, Filter { keywords: kws, sources: srcs, sources_rt: None }, paths)
}

} // verus!
