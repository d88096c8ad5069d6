//! Character-sequence utilities: conversions between `&str` and `Vec<char>`,
//! substring search, splitting, decimal parsing and printing, and the
//! newline escape applied to comment text.

use vstd::prelude::*;

verus! {

/// Is `c` a decimal digit?
pub open spec fn is_digit(c: char) -> bool {
    '0' <= c && c <= '9'
}

/// The numeric value of a decimal digit.
pub open spec fn digit_of(c: char) -> int {
    c as int - '0' as int
}

/// Every character of `s` is a decimal digit.
pub open spec fn all_digits(s: Seq<char>) -> bool {
    forall|i: int| 0 <= i < s.len() ==> is_digit(#[trigger] s[i])
}

/// The number denoted by a digit sequence, most significant digit first.
pub open spec fn dec_val(s: Seq<char>) -> int
    decreases s.len(),
{
    if s.len() == 0 {
        0
    } else {
        dec_val(s.drop_last()) * 10 + digit_of(s.last())
    }
}

/// The digit character for `d` in `0..=9`.
pub open spec fn digit_char(d: int) -> char {
    if d == 0 { '0' }
    else if d == 1 { '1' }
    else if d == 2 { '2' }
    else if d == 3 { '3' }
    else if d == 4 { '4' }
    else if d == 5 { '5' }
    else if d == 6 { '6' }
    else if d == 7 { '7' }
    else if d == 8 { '8' }
    else { '9' }
}

/// The decimal rendering of `n`, without sign or leading zeros.
pub open spec fn dec_seq(n: nat) -> Seq<char>
    decreases n,
{
    if n < 10 {
        seq![digit_char(n as int)]
    } else {
        dec_seq(n / 10).push(digit_char((n % 10) as int))
    }
}

/// What one character of comment text becomes in the stored form:
/// a literal newline turns into the two-character escape `\N`.
pub open spec fn esc_char(c: char) -> Seq<char> {
    if c == '\n' {
        seq!['\\', 'N']
    } else {
        seq![c]
    }
}

/// Comment text with every literal newline replaced by `\N`.
pub open spec fn esc(s: Seq<char>) -> Seq<char>
    decreases s.len(),
{
    if s.len() == 0 {
        Seq::<char>::empty()
    } else {
        esc(s.drop_last()) + esc_char(s.last())
    }
}

/// A character that extends the cluster before it rather than starting
/// a display cell of its own: the common combining-mark blocks, the
/// variation selectors, and the emoji skin-tone modifiers.
pub open spec fn is_extend(c: char) -> bool {
    ||| 0x0300 <= c as u32 <= 0x036F
    ||| 0x1AB0 <= c as u32 <= 0x1AFF
    ||| 0x1DC0 <= c as u32 <= 0x1DFF
    ||| 0x20D0 <= c as u32 <= 0x20FF
    ||| 0xFE00 <= c as u32 <= 0xFE0F
    ||| 0xFE20 <= c as u32 <= 0xFE2F
    ||| 0xE0100 <= c as u32 <= 0xE01EF
    ||| 0x1F3FB <= c as u32 <= 0x1F3FF
}

/// The zero-width joiner that glues emoji into one cell.
pub open spec fn is_zwj(c: char) -> bool {
    c as u32 == 0x200D
}

/// A regional-indicator symbol; two in a row form one flag.
pub open spec fn is_ri(c: char) -> bool {
    0x1F1E6 <= c as u32 <= 0x1F1FF
}

/// How many regional indicators stand immediately before position `i`.
pub open spec fn ri_run(s: Seq<char>, i: int) -> int
    decreases i,
{
    if i <= 0 || i > s.len() || !is_ri(s[i - 1]) {
        0
    } else {
        1 + ri_run(s, i - 1)
    }
}

/// Does the character at `i` start a new display cell?  Extenders and
/// joiners do not; neither does a character joined to its predecessor
/// by a zero-width joiner, nor the second indicator of a flag pair.
pub open spec fn starts_cluster(s: Seq<char>, i: int) -> bool {
    if is_extend(s[i]) || is_zwj(s[i]) {
        false
    } else if i > 0 && is_zwj(s[i - 1]) {
        false
    } else if is_ri(s[i]) && ri_run(s, i) % 2 == 1 {
        false
    } else {
        true
    }
}

/// The count of user-perceived character clusters (display cells) of a
/// text, under this crate's cluster model: a cell per character, except
/// that combining marks, variation selectors, skin-tone modifiers,
/// zero-width joiners, characters joined by one, and the second of a
/// flag pair extend the cell before them.
pub open spec fn cluster_count(s: Seq<char>) -> int
    decreases s.len(),
{
    if s.len() == 0 {
        0
    } else {
        cluster_count(s.drop_last()) + if starts_cluster(s, s.len() - 1) {
            1int
        } else {
            0int
        }
    }
}

/// A regional-indicator run is the same in every extension of `s`
/// that keeps the prefix.
proof fn lemma_ri_run_prefix(s: Seq<char>, k: int, i: int)
    requires
        0 <= i <= k <= s.len(),
    ensures
        ri_run(s.take(k), i) == ri_run(s, i),
    decreases i,
{
    if !(i <= 0 || !is_ri(s[i - 1])) {
        lemma_ri_run_prefix(s, k, i - 1);
    }
}

/// Is `c` a display-cell extender (see `is_extend`)?
fn extend_exec(c: char) -> (r: bool)
    ensures
        r == is_extend(c),
{
    let u = c as u32;
    (0x0300 <= u && u <= 0x036F) || (0x1AB0 <= u && u <= 0x1AFF) || (0x1DC0 <= u && u <= 0x1DFF)
        || (0x20D0 <= u && u <= 0x20FF) || (0xFE00 <= u && u <= 0xFE0F) || (0xFE20 <= u && u
        <= 0xFE2F) || (0xE0100 <= u && u <= 0xE01EF) || (0x1F3FB <= u && u <= 0x1F3FF)
}

/// Count the display cells of a text (see `cluster_count`).
#[verifier::loop_isolation(false)]
pub fn count_clusters(v: &Vec<char>) -> (r: usize)
    ensures
        r == cluster_count(v@),
        r <= v@.len(),
{
    let mut r: usize = 0;
    let mut run: usize = 0;
    let mut i: usize = 0;
    while i < v.len()
        invariant
            i <= v@.len(),
            r == cluster_count(v@.take(i as int)),
            r <= i,
            run as int == ri_run(v@, i as int),
            run <= i,
        decreases v@.len() - i,
    {
        let c = v[i];
        let starts: bool;
        if extend_exec(c) || c as u32 == 0x200D {
            starts = false;
        } else if i > 0 && v[i - 1] as u32 == 0x200D {
            starts = false;
        } else if 0x1F1E6 <= c as u32 && c as u32 <= 0x1F1FF && run % 2 == 1 {
            starts = false;
        } else {
            starts = true;
        }
        proof {
            assert(v@.take(i + 1).drop_last() =~= v@.take(i as int));
            assert(v@.take(i + 1).last() == v@[i as int]);
            lemma_ri_run_prefix(v@, i + 1, i as int);
            assert(starts == starts_cluster(v@.take(i + 1), i as int));
        }
        if starts {
            r += 1;
        }
        if 0x1F1E6 <= c as u32 && c as u32 <= 0x1F1FF {
            run += 1;
        } else {
            run = 0;
        }
        i += 1;
    }
    proof {
        assert(v@.take(v@.len() as int) =~= v@);
    }
    r
}

/// `needle` occurs contiguously in `hay` starting at `i`.
pub open spec fn match_at(hay: Seq<char>, needle: Seq<char>, i: int) -> bool {
    0 <= i && i + needle.len() <= hay.len()
        && hay.subrange(i, i + needle.len() as int) == needle
}

/// `needle` occurs somewhere in `hay` (anywhere, for an empty needle).
pub open spec fn contains_seq(hay: Seq<char>, needle: Seq<char>) -> bool {
    exists|i: int| match_at(hay, needle, i)
}

/// The split of `s` at separator characters, empty pieces dropped:
/// the pieces finished so far and the piece still being read.
pub open spec fn tok_state(s: Seq<char>, seps: Seq<char>) -> (Seq<Seq<char>>, Seq<char>)
    decreases s.len(),
{
    if s.len() == 0 {
        (Seq::<Seq<char>>::empty(), Seq::<char>::empty())
    } else {
        let r = tok_state(s.drop_last(), seps);
        let c = s.last();
        if seps.contains(c) {
            if r.1.len() == 0 {
                (r.0, Seq::<char>::empty())
            } else {
                (r.0.push(r.1), Seq::<char>::empty())
            }
        } else {
            (r.0, r.1.push(c))
        }
    }
}

/// The non-empty pieces of `s` between separator characters, in order.
pub open spec fn split_tokens(s: Seq<char>, seps: Seq<char>) -> Seq<Seq<char>> {
    let r = tok_state(s, seps);
    if r.1.len() == 0 {
        r.0
    } else {
        r.0.push(r.1)
    }
}

/// The split of `s` at `sep`, empty pieces kept, as `str::split` makes it:
/// an empty input gives one empty piece.
pub open spec fn split_keep_spec(s: Seq<char>, sep: char) -> Seq<Seq<char>>
    decreases s.len(),
{
    if s.len() == 0 {
        seq![Seq::<char>::empty()]
    } else {
        let r = split_keep_spec(s.drop_last(), sep);
        let c = s.last();
        if c == sep {
            r.push(Seq::<char>::empty())
        } else {
            r.update(r.len() - 1, r.last().push(c))
        }
    }
}

/// The characters of `s`, in order, as a vector.
pub fn chars_of(s: &str) -> (v: Vec<char>)
    ensures
        v@ == s@,
{
    let n = s.unicode_len();
    let mut v: Vec<char> = Vec::new();
    proof {
        assert(v@ =~= s@.take(0));
    }
    let mut i: usize = 0;
    while i < n
        invariant
            n == s@.len(),
            i <= n,
            v@ == s@.take(i as int),
        decreases n - i,
    {
        v.push(s.get_char(i));
        proof {
            assert(s@.take(i + 1) =~= s@.take(i as int).push(s@[i as int]));
        }
        i += 1;
    }
    proof {
        assert(s@.take(n as int) =~= s@);
    }
    v
}

/// Do the characters of `v` spell exactly `s`?
pub fn eq_str(v: &Vec<char>, s: &str) -> (r: bool)
    ensures
        r <==> v@ == s@,
{
    let n = s.unicode_len();
    if v.len() != n {
        proof {
            assert(v@ != s@);
        }
        return false;
    }
    let mut i: usize = 0;
    while i < n
        invariant
            n == s@.len(),
            v@.len() == n,
            i <= n,
            forall|k: int| 0 <= k < i ==> v@[k] == s@[k],
        decreases n - i,
    {
        if v[i] != s.get_char(i) {
            proof {
                assert(v@ != s@);
            }
            return false;
        }
        i += 1;
    }
    proof {
        assert(v@ =~= s@);
    }
    true
}

/// Is `c` one of the characters of `seps`?
pub fn contains_char(seps: &Vec<char>, c: char) -> (r: bool)
    ensures
        r <==> seps@.contains(c),
{
    let mut i: usize = 0;
    while i < seps.len()
        invariant
            i <= seps@.len(),
            forall|k: int| 0 <= k < i ==> seps@[k] != c,
        decreases seps@.len() - i,
    {
        if seps[i] == c {
            return true;
        }
        i += 1;
    }
    false
}

/// Does `needle` occur contiguously in `hay`?
pub fn contains_chars(hay: &Vec<char>, needle: &Vec<char>) -> (r: bool)
    ensures
        r <==> contains_seq(hay@, needle@),
{
    let m = needle.len();
    let n = hay.len();
    if m > n {
        return false;
    }
    let mut i: usize = 0;
    while i <= n - m
        invariant
            m == needle@.len(),
            n == hay@.len(),
            m <= n,
            i <= n - m + 1,
            forall|k: int| 0 <= k < i ==> !match_at(hay@, needle@, k),
        decreases n - m + 1 - i,
    {
        let mut j: usize = 0;
        let mut ok = true;
        while j < m
            invariant
                m == needle@.len(),
                n == hay@.len(),
                i + m <= n,
                j <= m,
                !ok ==> j == m,
                ok <==> (forall|k: int| 0 <= k < j ==> hay@[i + k] == #[trigger] needle@[k]),
            decreases m - j,
        {
            if hay[i + j] != needle[j] {
                ok = false;
                j = m;
            } else {
                proof {
                    assert forall|k: int| 0 <= k < j + 1 implies hay@[i + k] == #[trigger] needle@[k] by {
                        if k == j {
                            assert(hay@[i + j] == needle@[j as int]);
                        }
                    }
                }
                j += 1;
            }
        }
        if ok {
            proof {
                assert(hay@.subrange(i as int, i + m) =~= needle@);
                assert(match_at(hay@, needle@, i as int));
            }
            return true;
        }
        proof {
            assert(!match_at(hay@, needle@, i as int)) by {
                let k0 = choose|k: int| 0 <= k < m && hay@[i + k] != needle@[k];
                assert(hay@.subrange(i as int, i + m)[k0] == hay@[i + k0]);
            }
        }
        i += 1;
    }
    false
}

/// `dec_val` of a prefix of an all-digit sequence never exceeds `dec_val`
/// of the whole.
pub proof fn lemma_dec_val_prefix(s: Seq<char>, k: int)
    requires
        all_digits(s),
        0 <= k <= s.len(),
    ensures
        0 <= dec_val(s.take(k)),
        dec_val(s.take(k)) <= dec_val(s),
    decreases s.len(),
{
    if s.len() == 0 {
        assert(s.take(k) =~= s);
    } else if k == s.len() {
        assert(s.take(k) =~= s);
        lemma_dec_val_prefix(s.drop_last(), s.len() - 1);
        assert(s.drop_last().take(s.len() - 1) =~= s.drop_last());
    } else {
        assert(s.take(k) =~= s.drop_last().take(k));
        lemma_dec_val_prefix(s.drop_last(), k);
    }
}

/// Parse a decimal number.  Succeeds exactly on non-empty all-digit
/// sequences whose value fits in `usize`.
pub fn parse_usize(t: &Vec<char>) -> (r: Option<usize>)
    ensures
        r is Some <==> t@.len() >= 1 && all_digits(t@) && dec_val(t@) <= usize::MAX,
        r is Some ==> r->0 == dec_val(t@),
{
    if t.len() == 0 {
        return None;
    }
    let mut acc: usize = 0;
    let mut i: usize = 0;
    while i < t.len()
        invariant
            i <= t@.len(),
            forall|k: int| 0 <= k < i ==> is_digit(#[trigger] t@[k]),
            acc == dec_val(t@.take(i as int)),
        decreases t@.len() - i,
    {
        let c = t[i];
        if !('0' <= c && c <= '9') {
            return None;
        }
        let d: usize = (c as u32 - '0' as u32) as usize;
        if acc > (usize::MAX - d) / 10 {
            proof {
                assert(t@.take(i + 1).drop_last() =~= t@.take(i as int));
                assert(t@.take(i + 1).last() == t@[i as int]);
                assert(dec_val(t@.take(i + 1)) == acc * 10 + d);
                assert(acc * 10 + d > usize::MAX);
                if all_digits(t@) {
                    lemma_dec_val_prefix(t@, i + 1);
                }
            }
            return None;
        }
        proof {
            assert(t@.take(i + 1).drop_last() =~= t@.take(i as int));
            assert(t@.take(i + 1).last() == t@[i as int]);
        }
        acc = acc * 10 + d;
        i += 1;
    }
    proof {
        assert(t@.take(t@.len() as int) =~= t@);
    }
    Some(acc)
}

/// The comment text with every newline replaced by the `\N` escape.
pub fn escape_newlines(v: &Vec<char>) -> (out: Vec<char>)
    ensures
        out@ == esc(v@),
{
    let mut out: Vec<char> = Vec::new();
    let mut i: usize = 0;
    while i < v.len()
        invariant
            i <= v@.len(),
            out@ == esc(v@.take(i as int)),
        decreases v@.len() - i,
    {
        proof {
            assert(v@.take(i + 1).drop_last() =~= v@.take(i as int));
            assert(v@.take(i + 1).last() == v@[i as int]);
        }
        if v[i] == '\n' {
            out.push('\\');
            out.push('N');
        } else {
            out.push(v[i]);
        }
        proof {
            assert(out@ =~= esc(v@.take(i as int)) + esc_char(v@[i as int]));
        }
        i += 1;
    }
    proof {
        assert(v@.take(v@.len() as int) =~= v@);
    }
    out
}

/// The non-empty pieces of `v` between characters of `seps`, in order.
pub fn tokenize(v: &Vec<char>, seps: &Vec<char>) -> (out: Vec<Vec<char>>)
    ensures
        out.deep_view() == split_tokens(v@, seps@),
{
    let mut out: Vec<Vec<char>> = Vec::new();
    let mut cur: Vec<char> = Vec::new();
    proof {
        assert(out.deep_view() =~~= tok_state(v@.take(0), seps@).0);
        assert(cur@ =~= tok_state(v@.take(0), seps@).1);
    }
    let mut i: usize = 0;
    while i < v.len()
        invariant
            i <= v@.len(),
            out.deep_view() == tok_state(v@.take(i as int), seps@).0,
            cur@ == tok_state(v@.take(i as int), seps@).1,
        decreases v@.len() - i,
    {
        proof {
            assert(v@.take(i + 1).drop_last() =~= v@.take(i as int));
            assert(v@.take(i + 1).last() == v@[i as int]);
        }
        let ghost prev_done = out.deep_view();
        let ghost prev_cur = cur@;
        let c = v[i];
        if contains_char(seps, c) {
            if cur.len() > 0 {
                out.push(cur);
                cur = Vec::new();
                proof {
                    assert(out.deep_view() =~~= prev_done.push(prev_cur));
                }
            }
        } else {
            cur.push(c);
        }
        i += 1;
    }
    proof {
        assert(v@.take(v@.len() as int) =~= v@);
    }
    if cur.len() > 0 {
        let ghost prev_done = out.deep_view();
        let ghost prev_cur = cur@;
        out.push(cur);
        proof {
            assert(out.deep_view() =~~= prev_done.push(prev_cur));
        }
    }
    out
}

/// The pieces of `v` between occurrences of `sep`, empty pieces kept.
pub fn split_keep(v: &Vec<char>, sep: char) -> (out: Vec<Vec<char>>)
    ensures
        out.deep_view() == split_keep_spec(v@, sep),
{
    let mut out: Vec<Vec<char>> = Vec::new();
    let mut cur: Vec<char> = Vec::new();
    proof {
        assert(split_keep_spec(v@.take(0), sep) =~~= out.deep_view().push(cur@));
    }
    let mut i: usize = 0;
    while i < v.len()
        invariant
            i <= v@.len(),
            split_keep_spec(v@.take(i as int), sep) == out.deep_view().push(cur@),
        decreases v@.len() - i,
    {
        proof {
            assert(v@.take(i + 1).drop_last() =~= v@.take(i as int));
            assert(v@.take(i + 1).last() == v@[i as int]);
        }
        let ghost prev_done = out.deep_view();
        let ghost prev_cur = cur@;
        let c = v[i];
        if c == sep {
            out.push(cur);
            cur = Vec::new();
            proof {
                assert(out.deep_view() =~~= prev_done.push(prev_cur));
                assert(split_keep_spec(v@.take(i + 1), sep) =~~= out.deep_view().push(cur@));
            }
        } else {
            cur.push(c);
            proof {
                assert(split_keep_spec(v@.take(i + 1), sep)
                    =~= prev_done.push(prev_cur).update(prev_done.len() as int, prev_cur.push(c)));
                assert(prev_done.push(prev_cur).update(prev_done.len() as int, prev_cur.push(c))
                    =~= prev_done.push(prev_cur.push(c)));
            }
        }
        i += 1;
    }
    proof {
        assert(v@.take(v@.len() as int) =~= v@);
    }
    let ghost prev_done = out.deep_view();
    let ghost prev_cur = cur@;
    out.push(cur);
    proof {
        assert(out.deep_view() =~~= prev_done.push(prev_cur));
    }
    out
}

/// Append the decimal rendering of `n` to `s`.
pub fn push_dec(s: &mut String, n: u64)
    ensures
        final(s)@ == old(s)@ + dec_seq(n as nat),
    decreases n,
{
    if n >= 10 {
        push_dec(s, n / 10);
    }
    let d = n % 10;
    proof {
        reveal_strlit("0");
        reveal_strlit("1");
        reveal_strlit("2");
        reveal_strlit("3");
        reveal_strlit("4");
        reveal_strlit("5");
        reveal_strlit("6");
        reveal_strlit("7");
        reveal_strlit("8");
        reveal_strlit("9");
    }
    match d {
        0 => s.append("0"),
        1 => s.append("1"),
        2 => s.append("2"),
        3 => s.append("3"),
        4 => s.append("4"),
        5 => s.append("5"),
        6 => s.append("6"),
        7 => s.append("7"),
        8 => s.append("8"),
        _ => s.append("9"),
    }
    proof {
        assert("0"@ =~= seq!['0']);
        assert("1"@ =~= seq!['1']);
        assert("2"@ =~= seq!['2']);
        assert("3"@ =~= seq!['3']);
        assert("4"@ =~= seq!['4']);
        assert("5"@ =~= seq!['5']);
        assert("6"@ =~= seq!['6']);
        assert("7"@ =~= seq!['7']);
        assert("8"@ =~= seq!['8']);
        assert("9"@ =~= seq!['9']);
        if n < 10 {
            assert(dec_seq(n as nat) =~= seq![digit_char(n as int)]);
            assert(s@ =~= old(s)@ + dec_seq(n as nat));
        } else {
            assert(dec_seq(n as nat) =~= dec_seq((n / 10) as nat).push(digit_char((n % 10) as int)));
            assert(s@ =~= old(s)@ + dec_seq(n as nat));
        }
    }
}

/// The decimal rendering of `n` as a fresh string.
pub fn u64_to_string(n: u64) -> (r: String)
    ensures
        r@ == dec_seq(n as nat),
{
    let mut s = String::new();
    push_dec(&mut s, n);
    proof {
        assert(s@ =~= dec_seq(n as nat));
    }
    s
}

} // verus!
