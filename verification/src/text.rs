//! Text conversions: bytes to strings at the crate's edges, and decimal
//! rendering of counters for metadata values.

use vstd::prelude::*;
use vstd::string::StringExecFns;
use vstd::string::StringSliceAdditionalSpecFns;
use vstd::utf8::valid_utf8;
use vstd::utf8::decode_utf8;
use vstd::utf8::encode_utf8;
use vstd::utf8::encode_utf8_decode_utf8;
use crate::hex::hex_digit_char;

verus! {

/// Compares two byte slices for equality.
pub fn bytes_eq(a: &[u8], b: &[u8]) -> (r: bool)
    ensures
        r <==> a@ == b@,
{
    if a.len() != b.len() {
        return false;
    }
    let mut i: usize = 0;
    while i < a.len()
        invariant
            a@.len() == b@.len(),
            i <= a@.len(),
            forall|j: int| 0 <= j < i ==> a@[j] == b@[j],
        decreases a@.len() - i,
    {
        if a[i] != b[i] {
            return false;
        }
        i = i + 1;
    }
    proof {
        assert(a@ =~= b@);
    }
    true
}

/// Compares two strings for equality, byte for byte.
pub fn str_eq(a: &str, b: &str) -> (r: bool)
    ensures
        r <==> a@ == b@,
{
    let r = bytes_eq(a.as_bytes(), b.as_bytes());
    proof {
        if encode_utf8(a@) == encode_utf8(b@) {
            encode_utf8_decode_utf8(a@);
            encode_utf8_decode_utf8(b@);
        }
    }
    r
}

/// What String::from_utf8_lossy makes of a byte sequence.  On invalid
/// UTF-8 the exact result (replacement characters) is not modelled; it
/// depends on the bytes alone.
pub uninterp spec fn utf8_lossy_of(data: Seq<u8>) -> Seq<char>;

/// Relies on String::from_utf8_lossy: the result depends on the bytes
/// alone, and on valid UTF-8 it is exactly their decoding.
#[verifier::external_body]
pub fn bytes_to_string_lossy(data: &[u8]) -> (r: String)
    ensures
        r@ == utf8_lossy_of(data@),
        valid_utf8(data@) ==> r@ == decode_utf8(data@),
{
    String::from_utf8_lossy(data).into_owned()
}

/// Relies on String::from_utf8: it succeeds exactly on valid UTF-8 and
/// returns its decoding.
#[verifier::external_body]
pub fn vec_to_string(data: Vec<u8>) -> (r: Option<String>)
    ensures
        r matches Some(s) ==> valid_utf8(data@) && s@ == decode_utf8(data@),
        r is None ==> !valid_utf8(data@),
{
    String::from_utf8(data).ok()
}

/// The decimal rendering of a non-negative integer, most significant
/// digit first, with no leading zeros (a lone zero for 0).
pub open spec fn dec_chars_of(n: int) -> Seq<char>
    decreases n,
{
    if n < 10 {
        seq![hex_digit_char(if 0 <= n { n as u8 } else { 0 })]
    } else {
        dec_chars_of(n / 10) + seq![hex_digit_char((n % 10) as u8)]
    }
}

/// Renders a counter in decimal.
pub fn u64_to_string(n: u64) -> (s: String)
    ensures
        s@ == dec_chars_of(n as int),
    decreases n,
{
    if n < 10 {
        let mut s = String::new();
        s.append(crate::hex::nibble_str(n as u8));
        proof {
            assert(s@ =~= dec_chars_of(n as int));
        }
        s
    } else {
        let mut s = u64_to_string(n / 10);
        s.append(crate::hex::nibble_str((n % 10) as u8));
        s
    }
}

} // verus!
