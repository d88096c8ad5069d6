//! The normalizer: raw records become canonical comments.  Records whose
//! message holds a blocked keyword are dropped for good; the rest get
//! their color decoded, their origin classified, their text escaped, and
//! the whole batch is sorted by time, once.

use vstd::prelude::*;
use crate::color::{blue_of, decode_color, green_of, packed_of, red_of, ColorCode};
use crate::comment::{sorted_by_time, wf_comment, wf_comments, Danmaku, Status};
use crate::options::{blocked_spec, source_blocked, Filter};
use crate::source::{source_of_user, user_source};
use crate::text::{chars_of, cluster_count, contains_chars, contains_seq, count_clusters, esc, escape_newlines};
use crate::trusted::string_from_chars;
use crate::TIME_MAX;

verus! {

/// One raw comment record as the backend sent it: a time offset in
/// milliseconds, a color, the message, and the user-identity string.
#[derive(Debug, Clone)]
pub struct RawDanmaku {
    pub time: i64,
    pub color: ColorCode,
    pub message: String,
    pub user: String,
}

/// A record survives the keyword filter when its raw message contains
/// none of the configured substrings.
pub open spec fn keep_spec(item: RawDanmaku, keywords: Seq<Seq<char>>) -> bool {
    forall|k: int| 0 <= k < keywords.len() ==> !contains_seq(item.message@, #[trigger] keywords[k])
}

/// A playback time forced into the model's admissible band.
pub open spec fn clamp_time(t: int) -> int {
    if t < -TIME_MAX {
        -TIME_MAX as int
    } else if t > TIME_MAX {
        TIME_MAX as int
    } else {
        t
    }
}

/// The comment a surviving record normalizes to, field by field.
#[verifier::opaque]
pub open spec fn corresponds(c: Danmaku, item: RawDanmaku, f: &Filter) -> bool {
    &&& c.message@ == esc(item.message@)
    &&& c.count == cluster_count(item.message@)
    &&& c.time == clamp_time(item.time as int)
    &&& c.r == red_of(packed_of(item.color))
    &&& c.g == green_of(packed_of(item.color))
    &&& c.b == blue_of(packed_of(item.color))
    &&& c.source == source_of_user(item.user@)
    &&& c.blocked == blocked_spec(f, c.source)
    &&& c.status == Status::Unscheduled
}

/// `c` is the normalization of some surviving record among the first
/// `n` of `items`.
pub open spec fn from_some_record(
    c: Danmaku,
    items: Seq<RawDanmaku>,
    n: int,
    kws: Seq<Seq<char>>,
    f: &Filter,
) -> bool {
    exists|i: int| 0 <= i < n && keep_spec(#[trigger] items[i], kws) && corresponds(c, items[i], f)
}

/// `item`'s normalization stands somewhere in `s`.
pub open spec fn appears_in(item: RawDanmaku, s: Seq<Danmaku>, f: &Filter) -> bool {
    exists|j: int| 0 <= j < s.len() && corresponds(#[trigger] s[j], item, f)
}

/// How many records of `items` survive the keyword filter.
pub open spec fn kept_count(items: Seq<RawDanmaku>, keywords: Seq<Seq<char>>) -> int
    decreases items.len(),
{
    if items.len() == 0 {
        0
    } else {
        kept_count(items.drop_last(), keywords) + if keep_spec(items.last(), keywords) {
            1int
        } else {
            0int
        }
    }
}

/// Does the message contain any of the configured keywords?
#[verifier::loop_isolation(false)]
fn keyword_hit(msg: &Vec<char>, keywords: &Vec<String>) -> (r: bool)
    ensures
        r <==> exists|k: int|
            0 <= k < keywords@.len() && contains_seq(msg@, #[trigger] keywords.deep_view()[k]),
{
    let mut k: usize = 0;
    while k < keywords.len()
        invariant
            k <= keywords@.len(),
            forall|k2: int| 0 <= k2 < k ==> !contains_seq(msg@, #[trigger] keywords.deep_view()[k2]),
        decreases keywords@.len() - k,
    {
        let kw = chars_of(keywords[k].as_str());
        proof {
            assert(kw@ == keywords.deep_view()[k as int]);
        }
        if contains_chars(msg, &kw) {
            return true;
        }
        k += 1;
    }
    false
}

/// Normalize one surviving record.
fn make_comment(item: &RawDanmaku, f: &Filter) -> (c: Danmaku)
    ensures
        corresponds(c, *item, f),
        wf_comment(c),
{
    proof {
        reveal(corresponds);
    }
    let raw = chars_of(item.message.as_str());
    let cells = count_clusters(&raw);
    let escaped = escape_newlines(&raw);
    let message = string_from_chars(&escaped);
    let rgb = decode_color(&item.color);
    let source = user_source(item.user.as_str());
    let blocked = source_blocked(f, source);
    let time: i64 = if item.time < -TIME_MAX {
        -TIME_MAX
    } else if item.time > TIME_MAX {
        TIME_MAX
    } else {
        item.time
    };
    Danmaku {
        message,
        count: cells,
        time,
        r: rgb.0,
        g: rgb.1,
        b: rgb.2,
        source,
        blocked,
        status: Status::Unscheduled,
    }
}

/// Sort the batch by `time`, ascending, keeping exactly the same
/// comments (as a multiset).
#[verifier::loop_isolation(false)]
fn sort_comments(v: &mut Vec<Danmaku>)
    ensures
        sorted_by_time(final(v)@),
        final(v)@.to_multiset() == old(v)@.to_multiset(),
        final(v)@.len() == old(v)@.len(),
{
    proof {
        broadcast use vstd::seq_lib::group_to_multiset_ensures;
        broadcast use vstd::seq_lib::to_multiset_remove;
        broadcast use vstd::seq_lib::to_multiset_insert;
        broadcast use vstd::multiset::group_multiset_axioms;
    }
    let n = v.len();
    if n <= 1 {
        proof {
            assert(sorted_by_time(v@));
        }
        return;
    }
    let mut i: usize = 1;
    while i < n
        invariant
            n == v@.len(),
            1 <= i <= n,
            sorted_by_time(v@.take(i as int)),
            v@.to_multiset() == old(v)@.to_multiset(),
        decreases n - i,
    {
        proof {
            assert forall|a: int, b: int| 0 <= a < b <= i && b != i implies #[trigger] v@[a].time
                <= #[trigger] v@[b].time by {
                assert(v@.take(i as int)[a] == v@[a]);
                assert(v@.take(i as int)[b] == v@[b]);
            }
        }
        let mut j: usize = i;
        while j > 0 && v[j - 1].time > v[j].time
            invariant
                n == v@.len(),
                0 <= j <= i < n,
                v@.to_multiset() == old(v)@.to_multiset(),
                forall|a: int, b: int|
                    0 <= a < b <= i && a != j && b != j ==> #[trigger] v@[a].time
                        <= #[trigger] v@[b].time,
                forall|a: int| j < a <= i ==> v@[j as int].time <= #[trigger] v@[a].time,
            decreases j,
        {
            let ghost before = v@;
            let x = v.remove(j);
            v.insert(j - 1, x);
            proof {
                assert(v@ =~= before.update(j as int, before[j - 1]).update(j - 1, before[j as int]));
                assert(v@.to_multiset() == before.to_multiset()) by {
                    assert(before.remove(j as int).to_multiset() == before.to_multiset().remove(
                        before[j as int],
                    ));
                    assert(before.contains(before[j as int]));
                }
            }
            j -= 1;
        }
        proof {
            assert forall|a: int, b: int| 0 <= a < b <= i implies #[trigger] v@[a].time
                <= #[trigger] v@[b].time by {
                if b == j {
                    if a < j - 1 {
                        assert(v@[a].time <= v@[j - 1].time);
                    }
                }
            }
            assert(sorted_by_time(v@.take(i + 1)));
        }
        i += 1;
    }
    proof {
        assert(v@.take(n as int) =~= v@);
        assert(sorted_by_time(v@));
    }
}

/// Normalize a whole response: drop every record whose message holds a
/// configured keyword, convert the rest, and sort the batch by time.
///
/// The result holds exactly the surviving records, each normalized as
/// `corresponds` says, in time order.
#[verifier::loop_isolation(false)]
#[verifier::rlimit(50)]
pub fn process_danmaku_response(items: &Vec<RawDanmaku>, f: &Filter) -> (out: Vec<Danmaku>)
    ensures
        sorted_by_time(out@),
        wf_comments(out@),
        out@.len() == kept_count(items@, f.keywords.deep_view()),
        forall|j: int|
            0 <= j < out@.len() ==> from_some_record(
                #[trigger] out@[j],
                items@,
                items@.len() as int,
                f.keywords.deep_view(),
                f,
            ),
        forall|i: int|
            0 <= i < items@.len() && keep_spec(#[trigger] items@[i], f.keywords.deep_view())
                ==> appears_in(items@[i], out@, f),
{
    let ghost kws = f.keywords.deep_view();
    let mut out: Vec<Danmaku> = Vec::new();
    let mut i: usize = 0;
    while i < items.len()
        invariant
            i <= items@.len(),
            out@.len() == kept_count(items@.take(i as int), kws),
            wf_comments(out@),
            forall|j: int|
                0 <= j < out@.len() ==> from_some_record(#[trigger] out@[j], items@, i as int, kws, f),
            forall|i2: int|
                0 <= i2 < i && keep_spec(#[trigger] items@[i2], kws) ==> appears_in(
                    items@[i2],
                    out@,
                    f,
                ),
        decreases items@.len() - i,
    {
        proof {
            assert(items@.take(i + 1).drop_last() =~= items@.take(i as int));
            assert(items@.take(i + 1).last() == items@[i as int]);
        }
        let msg = chars_of(items[i].message.as_str());
        let hit = keyword_hit(&msg, &f.keywords);
        if !hit {
            let ghost prev = out@;
            let c = make_comment(&items[i], f);
            out.push(c);
            proof {
                assert(out@ =~= prev.push(c));
                lemma_push_step(items@, f, kws, prev, c, i as int);
            }
        } else {
            proof {
                assert(!keep_spec(items@[i as int], kws));
            }
        }
        i += 1;
    }
    proof {
        assert(items@.take(items@.len() as int) =~= items@);
    }
    let ghost pre = out@;
    sort_comments(&mut out);
    proof {
        lemma_perm_forward(items@, f, kws, pre, out@);
        lemma_perm_backward(items@, f, kws, pre, out@);
        lemma_perm_wf(pre, out@);
    }
    out
}

/// Appending the normalization of record `i` extends both directions of
/// the record/comment correspondence from bound `i` to `i + 1`.
proof fn lemma_push_step(
    items: Seq<RawDanmaku>,
    f: &Filter,
    kws: Seq<Seq<char>>,
    prev: Seq<Danmaku>,
    c: Danmaku,
    i: int,
)
    requires
        0 <= i < items.len(),
        keep_spec(items[i], kws),
        corresponds(c, items[i], f),
        forall|j: int|
            0 <= j < prev.len() ==> from_some_record(#[trigger] prev[j], items, i, kws, f),
        forall|i2: int|
            0 <= i2 < i && keep_spec(#[trigger] items[i2], kws) ==> appears_in(items[i2], prev, f),
    ensures
        forall|j: int|
            0 <= j < prev.push(c).len() ==> from_some_record(
                #[trigger] prev.push(c)[j],
                items,
                i + 1,
                kws,
                f,
            ),
        forall|i2: int|
            0 <= i2 < i + 1 && keep_spec(#[trigger] items[i2], kws) ==> appears_in(
                items[i2],
                prev.push(c),
                f,
            ),
{
    let post = prev.push(c);
    assert forall|j: int| 0 <= j < post.len() implies from_some_record(
        #[trigger] post[j],
        items,
        i + 1,
        kws,
        f,
    ) by {
        if j < prev.len() {
            assert(post[j] == prev[j]);
            assert(from_some_record(prev[j], items, i, kws, f));
            let iw = choose|iw: int|
                0 <= iw < i && keep_spec(#[trigger] items[iw], kws) && corresponds(
                    prev[j],
                    items[iw],
                    f,
                );
            assert(keep_spec(items[iw], kws) && corresponds(post[j], items[iw], f));
        } else {
            assert(post[j] == c);
            assert(keep_spec(items[i], kws) && corresponds(post[j], items[i], f));
        }
    }
    assert forall|i2: int|
        0 <= i2 < i + 1 && keep_spec(#[trigger] items[i2], kws) implies appears_in(
        items[i2],
        post,
        f,
    ) by {
        if i2 < i {
            assert(appears_in(items[i2], prev, f));
            let jw = choose|jw: int|
                0 <= jw < prev.len() && corresponds(#[trigger] prev[jw], items[i2], f);
            assert(post[jw] == prev[jw]);
            assert(corresponds(post[jw], items[i2], f));
        } else {
            assert(post[prev.len() as int] == c);
            assert(corresponds(post[prev.len() as int], items[i2], f));
        }
    }
}

/// Sequences with equal multisets have the same members.
proof fn lemma_multiset_contains_transfer(a: Seq<Danmaku>, b: Seq<Danmaku>, x: Danmaku)
    requires
        a.to_multiset() == b.to_multiset(),
        b.contains(x),
    ensures
        a.contains(x),
{
    a.to_multiset_ensures();
    b.to_multiset_ensures();
    assert(b.to_multiset().count(x) > 0);
    assert(a.to_multiset().count(x) > 0);
}

/// Every comment of a reordered batch still normalizes some surviving
/// record.
proof fn lemma_perm_forward(
    items: Seq<RawDanmaku>,
    f: &Filter,
    kws: Seq<Seq<char>>,
    pre: Seq<Danmaku>,
    post: Seq<Danmaku>,
)
    requires
        post.to_multiset() == pre.to_multiset(),
        forall|j: int|
            0 <= j < pre.len() ==> from_some_record(
                #[trigger] pre[j],
                items,
                items.len() as int,
                kws,
                f,
            ),
    ensures
        forall|j: int|
            0 <= j < post.len() ==> from_some_record(
                #[trigger] post[j],
                items,
                items.len() as int,
                kws,
                f,
            ),
{
    assert forall|j: int| 0 <= j < post.len() implies from_some_record(
        #[trigger] post[j],
        items,
        items.len() as int,
        kws,
        f,
    ) by {
        assert(post.contains(post[j]));
        lemma_multiset_contains_transfer(pre, post, post[j]);
        let j2 = choose|j2: int| 0 <= j2 < pre.len() && pre[j2] == post[j];
        assert(from_some_record(pre[j2], items, items.len() as int, kws, f));
        assert(pre[j2] == post[j]);
    }
}

/// Every surviving record still appears in a reordered batch.
proof fn lemma_perm_backward(
    items: Seq<RawDanmaku>,
    f: &Filter,
    kws: Seq<Seq<char>>,
    pre: Seq<Danmaku>,
    post: Seq<Danmaku>,
)
    requires
        post.to_multiset() == pre.to_multiset(),
        forall|i: int|
            0 <= i < items.len() && keep_spec(#[trigger] items[i], kws) ==> appears_in(
                items[i],
                pre,
                f,
            ),
    ensures
        forall|i: int|
            0 <= i < items.len() && keep_spec(#[trigger] items[i], kws) ==> appears_in(
                items[i],
                post,
                f,
            ),
{
    assert forall|i: int|
        0 <= i < items.len() && keep_spec(#[trigger] items[i], kws) implies appears_in(
        items[i],
        post,
        f,
    ) by {
        assert(appears_in(items[i], pre, f));
        let j0 = choose|j0: int| 0 <= j0 < pre.len() && corresponds(#[trigger] pre[j0], items[i], f);
        assert(pre.contains(pre[j0]));
        lemma_multiset_contains_transfer(post, pre, pre[j0]);
        let j1 = choose|j1: int| 0 <= j1 < post.len() && post[j1] == pre[j0];
        assert(corresponds(post[j1], items[i], f));
    }
}

/// Well-formedness survives any reordering of the batch.
proof fn lemma_perm_wf(pre: Seq<Danmaku>, post: Seq<Danmaku>)
    requires
        post.to_multiset() == pre.to_multiset(),
        wf_comments(pre),
    ensures
        wf_comments(post),
{
    assert forall|j: int| 0 <= j < post.len() implies wf_comment(#[trigger] post[j]) by {
        assert(post.contains(post[j]));
        lemma_multiset_contains_transfer(pre, post, post[j]);
        let j2 = choose|j2: int| 0 <= j2 < pre.len() && pre[j2] == post[j];
        assert(wf_comment(pre[j2]));
    }
}

} // verus!
