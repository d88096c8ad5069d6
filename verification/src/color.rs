//! Decoding of a raw record's color: either a packed-RGB integer or a
//! hex string with a leading marker character.  A malformed color falls
//! back to black instead of failing the batch.

use vstd::prelude::*;

verus! {

/// The color of a raw record as the backend sent it.
#[derive(Debug, Clone)]
pub enum ColorCode {
    /// A packed decimal integer, `r*65536 + g*256 + b`.
    Packed(u32),
    /// A hex string such as `#RRGGBB`; the first character is a marker
    /// and is always skipped.
    Text(String),
}

/// Is `c` a hex digit?
pub open spec fn is_hex_digit(c: char) -> bool {
    ('0' <= c && c <= '9') || ('a' <= c && c <= 'f') || ('A' <= c && c <= 'F')
}

/// The numeric value of a hex digit.
pub open spec fn hex_digit_of(c: char) -> int {
    if '0' <= c && c <= '9' {
        c as int - '0' as int
    } else if 'a' <= c && c <= 'f' {
        c as int - 'a' as int + 10
    } else {
        c as int - 'A' as int + 10
    }
}

/// Every character of `s` is a hex digit.
pub open spec fn all_hex(s: Seq<char>) -> bool {
    forall|i: int| 0 <= i < s.len() ==> is_hex_digit(#[trigger] s[i])
}

/// The number denoted by a hex-digit sequence, most significant first.
pub open spec fn hex_val(s: Seq<char>) -> int
    decreases s.len(),
{
    if s.len() == 0 {
        0
    } else {
        hex_val(s.drop_last()) * 16 + hex_digit_of(s.last())
    }
}

/// The packed-RGB value a color code denotes: the integer itself, or the
/// hex value of the string past its marker character.  An empty or
/// malformed string, and a hex value beyond 32 bits, denote black.
pub open spec fn packed_of(c: ColorCode) -> int {
    match c {
        ColorCode::Packed(v) => v as int,
        ColorCode::Text(s) => {
            if s@.len() == 0 {
                0
            } else {
                let t = s@.skip(1);
                if t.len() >= 1 && all_hex(t) && hex_val(t) <= u32::MAX {
                    hex_val(t)
                } else {
                    0
                }
            }
        },
    }
}

/// The red channel of a packed-RGB value.
pub open spec fn red_of(p: int) -> int {
    (p / 65536) % 256
}

/// The green channel of a packed-RGB value.
pub open spec fn green_of(p: int) -> int {
    (p / 256) % 256
}

/// The blue channel of a packed-RGB value.
pub open spec fn blue_of(p: int) -> int {
    p % 256
}

/// `hex_val` of a prefix of an all-hex sequence never exceeds `hex_val`
/// of the whole.
proof fn lemma_hex_val_prefix(s: Seq<char>, k: int)
    requires
        all_hex(s),
        0 <= k <= s.len(),
    ensures
        0 <= hex_val(s.take(k)),
        hex_val(s.take(k)) <= hex_val(s),
    decreases s.len(),
{
    if s.len() == 0 {
        assert(s.take(k) =~= s);
    } else if k == s.len() {
        assert(s.take(k) =~= s);
        lemma_hex_val_prefix(s.drop_last(), s.len() - 1);
        assert(s.drop_last().take(s.len() - 1) =~= s.drop_last());
    } else {
        assert(s.take(k) =~= s.drop_last().take(k));
        lemma_hex_val_prefix(s.drop_last(), k);
    }
}

/// The three 8-bit channels denoted by a color code.
#[verifier::loop_isolation(false)]
pub fn decode_color(code: &ColorCode) -> (rgb: (u8, u8, u8))
    ensures
        rgb.0 == red_of(packed_of(*code)),
        rgb.1 == green_of(packed_of(*code)),
        rgb.2 == blue_of(packed_of(*code)),
{
    let packed: u32 = match code {
        ColorCode::Packed(v) => *v,
        ColorCode::Text(s) => hex_text_value(s),
    };
    (
        ((packed / 65536) % 256) as u8,
        ((packed / 256) % 256) as u8,
        (packed % 256) as u8,
    )
}

/// The packed value denoted by a hex color string (see `packed_of`).
#[verifier::loop_isolation(false)]
fn hex_text_value(s: &String) -> (p: u32)
    ensures
        p == packed_of(ColorCode::Text(*s)),
{
    let v = crate::text::chars_of(s.as_str());
    let n = v.len();
    if n <= 1 {
        proof {
            if n == 1 {
                assert(s@.skip(1).len() == 0);
            }
        }
        return 0;
    }
    let ghost t = s@.skip(1);
    let mut acc: u32 = 0;
    let mut i: usize = 1;
    while i < n
        invariant
            1 <= i <= n,
            forall|k: int| 0 <= k < i - 1 ==> is_hex_digit(#[trigger] t[k]),
            acc == hex_val(t.take(i - 1)),
        decreases n - i,
    {
        let c = v[i];
        let d: u32;
        if '0' <= c && c <= '9' {
            d = c as u32 - '0' as u32;
        } else if 'a' <= c && c <= 'f' {
            d = c as u32 - 'a' as u32 + 10;
        } else if 'A' <= c && c <= 'F' {
            d = c as u32 - 'A' as u32 + 10;
        } else {
            proof {
                assert(t[i - 1] == v@[i as int]);
                assert(!all_hex(t));
            }
            return 0;
        }
        proof {
            assert(t[i - 1] == v@[i as int]);
            assert(t.take(i as int).drop_last() =~= t.take(i - 1));
            assert(t.take(i as int).last() == t[i - 1]);
        }
        if acc > (u32::MAX - d) / 16 {
            proof {
                assert(hex_val(t.take(i as int)) == acc * 16 + d);
                assert(acc * 16 + d > u32::MAX);
                if all_hex(t) {
                    lemma_hex_val_prefix(t, i as int);
                }
            }
            return 0;
        }
        acc = acc * 16 + d;
        i += 1;
    }
    proof {
        assert(t.take(n - 1) =~= t);
    }
    acc
}

} // verus!
