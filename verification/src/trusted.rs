//! The crate's trusted boundary: every call into an outside crate, and
//! the one `std` conversion vstd gives no specification for, lives here
//! behind a contract that Verus believes without proof.

use vstd::prelude::*;
use md5::Digest;
use rand::Rng;

verus! {

/// Relies on `String`'s `FromIterator<char>`: collecting characters
/// yields the string of exactly those characters in order.
#[verifier::external_body]
pub fn string_from_chars(v: &Vec<char>) -> (r: String)
    ensures
        r@ == v@,
{
    v.iter().collect()
}

/// The MD5 digest of a byte sequence, named but not described: the
/// result depends on the bytes alone.
pub uninterp spec fn md5_of(data: Seq<u8>) -> Seq<u8>;

/// Relies on `md5::Md5::digest` (the `md-5` crate): a 16-byte digest
/// computed from the input bytes alone.
#[verifier::external_body]
pub fn md5_digest(data: &Vec<u8>) -> (r: Vec<u8>)
    ensures
        r@ == md5_of(data@),
        r@.len() == 16,
{
    md5::Md5::digest(data.as_slice()).to_vec()
}

/// The lower-case hex character for a nibble value.
pub open spec fn hex_char(d: int) -> char {
    if d < 10 {
        crate::text::digit_char(d)
    } else if d == 10 { 'a' }
    else if d == 11 { 'b' }
    else if d == 12 { 'c' }
    else if d == 13 { 'd' }
    else if d == 14 { 'e' }
    else { 'f' }
}

/// The lower-case hex encoding of a byte sequence: for each byte, the
/// high nibble's character then the low nibble's.
pub open spec fn hex_of(data: Seq<u8>) -> Seq<char>
    decreases data.len(),
{
    if data.len() == 0 {
        Seq::<char>::empty()
    } else {
        hex_of(data.drop_last()) + seq![
            hex_char(data.last() as int / 16),
            hex_char(data.last() as int % 16),
        ]
    }
}

/// Relies on `hex::encode`: two lower-case digits per byte, high nibble
/// first, in input order.
#[verifier::external_body]
pub fn to_hex(data: &Vec<u8>) -> (r: String)
    ensures
        r@ == hex_of(data@),
{
    hex::encode(data)
}

/// Relies on `rand::Rng::gen_range` over a non-empty half-open range:
/// it returns a value of that range and panics only on an empty one,
/// which the precondition rules out.  Nothing else is promised: the
/// draw is random.
#[verifier::external_body]
pub fn draw_step(lo: u32, hi: u32) -> (r: u32)
    requires
        lo < hi,
    ensures
        lo <= r < hi,
{
    rand::thread_rng().gen_range(lo..hi)
}

} // verus!
