//! Comment provenance: the fixed table of known origins and the
//! classification of a raw record's user-identity string.

use vstd::prelude::*;
use crate::text::{all_digits, chars_of, eq_str, is_digit};

verus! {

/// The origin a comment was classified into.
#[derive(Debug, Clone, Copy, Hash, PartialEq, Eq, Structural)]
pub enum Source {
    Bilibili,
    Gamer,
    AcFun,
    QQ,
    IQIYI,
    D,
    Dandan,
    Unknown,
}

/// An upper-case ASCII letter folded to lower case; all else unchanged.
pub open spec fn lower_char(c: char) -> char {
    if 'A' <= c && c <= 'Z' {
        ((c as u8) + 32) as char
    } else {
        c
    }
}

/// A character sequence folded to lower case, ASCII letters only.
pub open spec fn lower_seq(s: Seq<char>) -> Seq<char> {
    s.map_values(|c: char| lower_char(c))
}

/// The fixed name table: a bracketed origin name, compared without regard
/// to ASCII case, mapped to its `Source`; unknown names give `Unknown`.
pub open spec fn source_of_name(n: Seq<char>) -> Source {
    let l = lower_seq(n);
    if l == "bilibili"@ {
        Source::Bilibili
    } else if l == "gamer"@ {
        Source::Gamer
    } else if l == "acfun"@ {
        Source::AcFun
    } else if l == "qq"@ {
        Source::QQ
    } else if l == "iqiyi"@ {
        Source::IQIYI
    } else if l == "d"@ {
        Source::D
    } else if l == "dandan"@ {
        Source::Dandan
    } else {
        Source::Unknown
    }
}

/// The position of the first `]` at or after `i`, or `-1` if there is none.
pub open spec fn find_close(u: Seq<char>, i: int) -> int
    decreases u.len() - i,
{
    if i < 0 || i >= u.len() {
        -1
    } else if u[i] == ']' {
        i
    } else {
        find_close(u, i + 1)
    }
}

/// Classification of a user-identity string: all decimal digits (or empty)
/// means `Dandan`; a leading `[` with a later `]` names an origin looked up
/// in the fixed table; anything else is `Unknown`.
pub open spec fn source_of_user(u: Seq<char>) -> Source {
    if all_digits(u) {
        Source::Dandan
    } else if u.len() >= 1 && u[0] == '[' && find_close(u, 1) >= 0 {
        source_of_name(u.subrange(1, find_close(u, 1)))
    } else {
        Source::Unknown
    }
}

/// A user-identity string of digits only always classifies as `Dandan`.
pub proof fn lemma_digits_user_is_dandan(u: Seq<char>)
    requires
        all_digits(u),
    ensures
        source_of_user(u) == Source::Dandan,
{
}

/// Look a name up in the fixed table, without regard to ASCII case.
pub fn source_from_name(v: &Vec<char>) -> (s: Source)
    ensures
        s == source_of_name(v@),
{
    let mut l: Vec<char> = Vec::new();
    let mut i: usize = 0;
    while i < v.len()
        invariant
            i <= v@.len(),
            l@ == lower_seq(v@.take(i as int)),
        decreases v@.len() - i,
    {
        let c = v[i];
        if 'A' <= c && c <= 'Z' {
            l.push(((c as u8) + 32) as char);
        } else {
            l.push(c);
        }
        proof {
            assert(l@ =~= lower_seq(v@.take(i + 1)));
        }
        i += 1;
    }
    proof {
        assert(v@.take(v@.len() as int) =~= v@);
    }
    if eq_str(&l, "bilibili") {
        Source::Bilibili
    } else if eq_str(&l, "gamer") {
        Source::Gamer
    } else if eq_str(&l, "acfun") {
        Source::AcFun
    } else if eq_str(&l, "qq") {
        Source::QQ
    } else if eq_str(&l, "iqiyi") {
        Source::IQIYI
    } else if eq_str(&l, "d") {
        Source::D
    } else if eq_str(&l, "dandan") {
        Source::Dandan
    } else {
        Source::Unknown
    }
}

impl From<&str> for Source {
    /// The name table lookup, from a raw string.
    fn from(value: &str) -> (s: Source) {
        let v = chars_of(value);
        source_from_name(&v)
    }
}

impl vstd::std_specs::convert::FromSpecImpl<&str> for Source {
    open spec fn obeys_from_spec() -> bool {
        true
    }

    open spec fn from_spec(value: &str) -> Source {
        source_of_name(value@)
    }
}

/// Classify a user-identity string.
#[verifier::loop_isolation(false)]
pub fn user_source(user: &str) -> (s: Source)
    ensures
        s == source_of_user(user@),
{
    let v = chars_of(user);
    let n = v.len();
    let mut all_num = true;
    let mut i: usize = 0;
    while i < n
        invariant
            n == v@.len(),
            i <= n,
            all_num <==> all_digits(v@.take(i as int)),
        decreases n - i,
    {
        let c = v[i];
        proof {
            assert(forall|k: int| 0 <= k < i + 1 ==> v@.take(i + 1)[k] == v@[k]);
        }
        if !('0' <= c && c <= '9') {
            all_num = false;
        } else {
            proof {
                if all_digits(v@.take(i as int)) {
                    assert forall|k: int| 0 <= k < i + 1 implies is_digit(#[trigger] v@.take(i + 1)[k]) by {
                        if k < i {
                            assert(is_digit(v@.take(i as int)[k]));
                        }
                    }
                }
            }
        }
        i += 1;
    }
    proof {
        assert(v@.take(n as int) =~= v@);
    }
    if all_num {
        return Source::Dandan;
    }
    if n >= 1 && v[0] == '[' {
        let mut j: usize = 1;
        while j < n
            invariant
                n == v@.len(),
                1 <= j <= n,
                find_close(v@, 1) == find_close(v@, j as int),
            decreases n - j,
        {
            if v[j] == ']' {
                proof {
                    assert(find_close(v@, j as int) == j as int);
                    assert(find_close(v@, 1) == j as int);
                }
                let mut name: Vec<char> = Vec::new();
                proof {
                    assert(name@ =~= v@.subrange(1, 1));
                }
                let mut k: usize = 1;
                while k < j
                    invariant
                        j < v@.len(),
                        1 <= k <= j,
                        name@ == v@.subrange(1, k as int),
                    decreases j - k,
                {
                    name.push(v[k]);
                    proof {
                        assert(name@ =~= v@.subrange(1, k + 1));
                    }
                    k += 1;
                }
                return source_from_name(&name);
            }
            proof {
                assert(find_close(v@, j as int) == find_close(v@, j + 1));
            }
            j += 1;
        }
        proof {
            assert(find_close(v@, n as int) == -1);
        }
        return Source::Unknown;
    }
    Source::Unknown
}

} // verus!
