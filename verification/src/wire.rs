//! The length-prefixed wire discipline shared by documents and containers.
//!
//! Everything on the wire is little-endian; every length field counts the
//! bytes of the field immediately following it.  Each shape comes as a
//! spec-level encoder, a spec-level parser over a position, an executable
//! writer or reader proved against them, and a lemma that parsing inverts
//! encoding.

use vstd::prelude::*;
use vstd::bytes::spec_u32_to_le_bytes;
use vstd::bytes::spec_u32_from_le_bytes;
use vstd::bytes::spec_u64_to_le_bytes;
use vstd::bytes::spec_u64_from_le_bytes;
use vstd::bytes::lemma_auto_spec_u32_to_from_le_bytes;
use vstd::bytes::lemma_auto_spec_u64_to_from_le_bytes;
use vstd::bytes::u32_from_le_bytes;
use vstd::bytes::u32_to_le_bytes;
use vstd::bytes::u64_from_le_bytes;
use vstd::bytes::u64_to_le_bytes;
use vstd::slice::slice_subrange;
use vstd::slice::slice_to_vec;
use vstd::utf8::valid_utf8;
use vstd::utf8::decode_utf8;
use vstd::utf8::encode_utf8;
use vstd::utf8::encode_utf8_valid_utf8;
use vstd::utf8::encode_utf8_decode_utf8;
use vstd::string::StringSliceAdditionalSpecFns;
use crate::text::vec_to_string;

verus! {

// ---------------------------------------------------------------------
// Fixed-width integers
// ---------------------------------------------------------------------

/// Parses a little-endian u32 at `pos`.
pub open spec fn parse_u32(data: Seq<u8>, pos: int) -> Option<(u32, int)> {
    if 0 <= pos && pos + 4 <= data.len() {
        Some((spec_u32_from_le_bytes(data.subrange(pos, pos + 4)), pos + 4))
    } else {
        None
    }
}

/// Parses a little-endian u64 at `pos`.
pub open spec fn parse_u64(data: Seq<u8>, pos: int) -> Option<(u64, int)> {
    if 0 <= pos && pos + 8 <= data.len() {
        Some((spec_u64_from_le_bytes(data.subrange(pos, pos + 8)), pos + 8))
    } else {
        None
    }
}

/// Parses one byte at `pos`.
pub open spec fn parse_u8(data: Seq<u8>, pos: int) -> Option<(u8, int)> {
    if 0 <= pos && pos + 1 <= data.len() {
        Some((data[pos], pos + 1))
    } else {
        None
    }
}

pub proof fn lemma_parse_u32_at(data: Seq<u8>, pos: int, x: u32)
    requires
        0 <= pos,
        pos + 4 <= data.len(),
        data.subrange(pos, pos + 4) == spec_u32_to_le_bytes(x),
    ensures
        parse_u32(data, pos) == Some((x, pos + 4)),
{
    lemma_auto_spec_u32_to_from_le_bytes();
    assert(spec_u32_to_le_bytes(x).len() == 4);
    assert(spec_u32_from_le_bytes(data.subrange(pos, pos + 4)) == x);
}

pub proof fn lemma_parse_u64_at(data: Seq<u8>, pos: int, x: u64)
    requires
        0 <= pos,
        pos + 8 <= data.len(),
        data.subrange(pos, pos + 8) == spec_u64_to_le_bytes(x),
    ensures
        parse_u64(data, pos) == Some((x, pos + 8)),
{
    lemma_auto_spec_u64_to_from_le_bytes();
    assert(spec_u64_to_le_bytes(x).len() == 8);
    assert(spec_u64_from_le_bytes(data.subrange(pos, pos + 8)) == x);
}

/// Appends a little-endian u32.
pub fn put_u32(out: &mut Vec<u8>, x: u32)
    ensures
        final(out)@ == old(out)@ + spec_u32_to_le_bytes(x),
{
    let mut b = u32_to_le_bytes(x);
    out.append(&mut b);
}

/// Appends a little-endian u64.
pub fn put_u64(out: &mut Vec<u8>, x: u64)
    ensures
        final(out)@ == old(out)@ + spec_u64_to_le_bytes(x),
{
    let mut b = u64_to_le_bytes(x);
    out.append(&mut b);
}

/// Reads a little-endian u32 at `pos`.
pub fn read_u32(data: &[u8], pos: usize) -> (r: Option<(u32, usize)>)
    ensures
        r matches Some((x, p)) ==> parse_u32(data@, pos as int) == Some((x, p as int)),
        r is None ==> parse_u32(data@, pos as int) is None,
{
    if pos <= data.len() && data.len() - pos >= 4 {
        let s = slice_subrange(data, pos, pos + 4);
        Some((u32_from_le_bytes(s), pos + 4))
    } else {
        None
    }
}

/// Reads a little-endian u64 at `pos`.
pub fn read_u64(data: &[u8], pos: usize) -> (r: Option<(u64, usize)>)
    ensures
        r matches Some((x, p)) ==> parse_u64(data@, pos as int) == Some((x, p as int)),
        r is None ==> parse_u64(data@, pos as int) is None,
{
    if pos <= data.len() && data.len() - pos >= 8 {
        let s = slice_subrange(data, pos, pos + 8);
        Some((u64_from_le_bytes(s), pos + 8))
    } else {
        None
    }
}

/// Reads one byte at `pos`.
pub fn read_u8(data: &[u8], pos: usize) -> (r: Option<(u8, usize)>)
    ensures
        r matches Some((x, p)) ==> parse_u8(data@, pos as int) == Some((x, p as int)),
        r is None ==> parse_u8(data@, pos as int) is None,
{
    if pos < data.len() {
        Some((data[pos], pos + 1))
    } else {
        None
    }
}

// ---------------------------------------------------------------------
// Length-prefixed byte strings
// ---------------------------------------------------------------------

/// Whether a byte string fits behind a 4-byte length prefix.
pub open spec fn bytes_fit(b: Seq<u8>) -> bool {
    b.len() <= u32::MAX
}

/// A 4-byte length prefix followed by the bytes themselves.
pub open spec fn enc_bytes(b: Seq<u8>) -> Seq<u8> {
    spec_u32_to_le_bytes(b.len() as u32) + b
}

/// Parses a length-prefixed byte string at `pos`.
pub open spec fn parse_bytes(data: Seq<u8>, pos: int) -> Option<(Seq<u8>, int)> {
    match parse_u32(data, pos) {
        Some((n, p)) => if p + n <= data.len() {
            Some((data.subrange(p, p + n), p + n))
        } else {
            None
        },
        None => None,
    }
}

pub proof fn lemma_parse_bytes_at(data: Seq<u8>, pos: int, b: Seq<u8>)
    requires
        bytes_fit(b),
        0 <= pos,
        pos + enc_bytes(b).len() <= data.len(),
        data.subrange(pos, pos + enc_bytes(b).len() as int) == enc_bytes(b),
    ensures
        parse_u32(data, pos) == Some((b.len() as u32, pos + 4)),
        parse_bytes(data, pos) == Some((b, pos + 4 + b.len())),
{
    lemma_auto_spec_u32_to_from_le_bytes();
    let e = enc_bytes(b);
    assert(e.len() == 4 + b.len());
    assert(data.subrange(pos, pos + 4) =~= e.subrange(0, 4));
    assert(e.subrange(0, 4) =~= spec_u32_to_le_bytes(b.len() as u32));
    assert(b.len() as u32 as int == b.len() as int);
    assert(data.subrange(pos + 4, pos + 4 + b.len()) =~= e.subrange(4, e.len() as int));
    assert(e.subrange(4, e.len() as int) =~= b);
}

/// Appends a length-prefixed byte string; fails (leaving `out` unchanged)
/// when the length does not fit the 4-byte prefix.
pub fn put_bytes(out: &mut Vec<u8>, b: &[u8]) -> (ok: bool)
    ensures
        ok ==> bytes_fit(b@) && final(out)@ == old(out)@ + enc_bytes(b@),
        !ok ==> !bytes_fit(b@) && final(out)@ == old(out)@,
{
    if b.len() as u64 > u32::MAX as u64 {
        return false;
    }
    put_u32(out, b.len() as u32);
    out.extend_from_slice(b);
    true
}

/// Reads a length-prefixed byte string at `pos`.
pub fn read_bytes(data: &[u8], pos: usize) -> (r: Option<(Vec<u8>, usize)>)
    ensures
        r matches Some((v, p)) ==> parse_bytes(data@, pos as int) == Some((v@, p as int)),
        r is None ==> parse_bytes(data@, pos as int) is None,
{
    match read_u32(data, pos) {
        Some((n, p)) => {
            if (data.len() - p) as u64 >= n as u64 {
                let end = p + n as usize;
                let v = slice_to_vec(slice_subrange(data, p, end));
                Some((v, end))
            } else {
                None
            }
        },
        None => None,
    }
}

// ---------------------------------------------------------------------
// Length-prefixed UTF-8 strings
// ---------------------------------------------------------------------

/// Whether a string's UTF-8 form fits behind a 4-byte length prefix.
pub open spec fn str_fits(s: Seq<char>) -> bool {
    encode_utf8(s).len() <= u32::MAX
}

/// A length-prefixed UTF-8 encoding of the string.
pub open spec fn enc_str(s: Seq<char>) -> Seq<u8> {
    enc_bytes(encode_utf8(s))
}

/// Parses a length-prefixed UTF-8 string at `pos`; invalid UTF-8 is a
/// parse failure.
pub open spec fn parse_str(data: Seq<u8>, pos: int) -> Option<(Seq<char>, int)> {
    match parse_bytes(data, pos) {
        Some((b, p)) => if valid_utf8(b) {
            Some((decode_utf8(b), p))
        } else {
            None
        },
        None => None,
    }
}

pub proof fn lemma_parse_str_at(data: Seq<u8>, pos: int, s: Seq<char>)
    requires
        str_fits(s),
        0 <= pos,
        pos + enc_str(s).len() <= data.len(),
        data.subrange(pos, pos + enc_str(s).len() as int) == enc_str(s),
    ensures
        parse_str(data, pos) == Some((s, pos + enc_str(s).len())),
{
    lemma_auto_spec_u32_to_from_le_bytes();
    assert(spec_u32_to_le_bytes(encode_utf8(s).len() as u32).len() == 4);
    lemma_parse_bytes_at(data, pos, encode_utf8(s));
    encode_utf8_valid_utf8(s);
    encode_utf8_decode_utf8(s);
    assert(enc_str(s).len() == 4 + encode_utf8(s).len());
}

/// Appends a length-prefixed UTF-8 string; fails (leaving `out`
/// unchanged) when the encoding does not fit the 4-byte prefix.
pub fn put_str(out: &mut Vec<u8>, s: &str) -> (ok: bool)
    ensures
        ok ==> str_fits(s@) && final(out)@ == old(out)@ + enc_str(s@),
        !ok ==> !str_fits(s@) && final(out)@ == old(out)@,
{
    let b = s.as_bytes();
    put_bytes(out, b)
}

// ---------------------------------------------------------------------
// Raw byte runs of a known width
// ---------------------------------------------------------------------

/// Parses `n` raw bytes at `pos`.
pub open spec fn parse_raw(data: Seq<u8>, pos: int, n: int) -> Option<(Seq<u8>, int)> {
    if 0 <= pos && 0 <= n && pos + n <= data.len() {
        Some((data.subrange(pos, pos + n), pos + n))
    } else {
        None
    }
}

/// Reads 32 raw bytes at `pos` into an array.
pub fn read_sig(data: &[u8], pos: usize) -> (r: Option<([u8; 32], usize)>)
    ensures
        r matches Some((sig, p)) ==> parse_raw(data@, pos as int, 32) == Some((sig@, p as int)),
        r is None ==> parse_raw(data@, pos as int, 32) is None,
{
    if pos <= data.len() && data.len() - pos >= 32 {
        let mut sig: [u8; 32] = vstd::array::array_fill_for_copy_types(0u8);
        let mut i: usize = 0;
        while i < 32
            invariant
                i <= 32,
                pos + 32 <= data.len(),
                sig@.len() == 32,
                forall|j: int| 0 <= j < i ==> sig@[j] == data@[pos + j],
            decreases 32 - i,
        {
            sig[i] = data[pos + i];
            i = i + 1;
        }
        proof {
            assert(sig@ =~= data@.subrange(pos as int, pos + 32));
        }
        Some((sig, pos + 32))
    } else {
        None
    }
}

// ---------------------------------------------------------------------
// Counted lists of fixed-width integers
// ---------------------------------------------------------------------

/// The items of a u64 list, back to back.
pub open spec fn enc_u64_items(v: Seq<u64>) -> Seq<u8>
    decreases v.len(),
{
    if v.len() == 0 {
        Seq::empty()
    } else {
        spec_u64_to_le_bytes(v[0]) + enc_u64_items(v.drop_first())
    }
}

/// A 4-byte count followed by the items, 8 bytes each.
pub open spec fn enc_u64_list(v: Seq<u64>) -> Seq<u8> {
    spec_u32_to_le_bytes(v.len() as u32) + enc_u64_items(v)
}

/// Whether a list's count fits the 4-byte prefix.
pub open spec fn list_fits(n: nat) -> bool {
    n <= u32::MAX
}

/// Parses `n` u64 items at `pos`.
pub open spec fn parse_u64_items(data: Seq<u8>, pos: int, n: int) -> Option<(Seq<u64>, int)>
    decreases n,
{
    if n <= 0 {
        Some((Seq::empty(), pos))
    } else {
        match parse_u64(data, pos) {
            Some((x, p)) => match parse_u64_items(data, p, n - 1) {
                Some((rest, q)) => Some((seq![x] + rest, q)),
                None => None,
            },
            None => None,
        }
    }
}

/// Parses a counted u64 list at `pos`.
pub open spec fn parse_u64_list(data: Seq<u8>, pos: int) -> Option<(Seq<u64>, int)> {
    match parse_u32(data, pos) {
        Some((n, p)) => parse_u64_items(data, p, n as int),
        None => None,
    }
}

pub proof fn lemma_enc_u64_items_len(v: Seq<u64>)
    ensures
        enc_u64_items(v).len() == 8 * v.len(),
    decreases v.len(),
{
    lemma_auto_spec_u64_to_from_le_bytes();
    if v.len() > 0 {
        assert(spec_u64_to_le_bytes(v[0]).len() == 8);
        lemma_enc_u64_items_len(v.drop_first());
    }
}

pub proof fn lemma_enc_u64_items_snoc(v: Seq<u64>, x: u64)
    ensures
        enc_u64_items(v.push(x)) == enc_u64_items(v) + spec_u64_to_le_bytes(x),
    decreases v.len(),
{
    reveal_with_fuel(enc_u64_items, 2);
    if v.len() == 0 {
        assert(v.push(x)[0] == x);
        assert(v.push(x).drop_first() =~= Seq::<u64>::empty());
        assert(enc_u64_items(v.push(x)) =~= enc_u64_items(v) + spec_u64_to_le_bytes(x));
    } else {
        assert(v.push(x).drop_first() =~= v.drop_first().push(x));
        assert(v.push(x)[0] == v[0]);
        lemma_enc_u64_items_snoc(v.drop_first(), x);
        assert(enc_u64_items(v.push(x)) =~= enc_u64_items(v) + spec_u64_to_le_bytes(x));
    }
}

pub proof fn lemma_parse_u64_items_at(data: Seq<u8>, pos: int, v: Seq<u64>)
    requires
        0 <= pos,
        pos + enc_u64_items(v).len() <= data.len(),
        data.subrange(pos, pos + enc_u64_items(v).len() as int) == enc_u64_items(v),
    ensures
        parse_u64_items(data, pos, v.len() as int)
            == Some((v, pos + enc_u64_items(v).len())),
    decreases v.len(),
{
    lemma_auto_spec_u64_to_from_le_bytes();
    lemma_enc_u64_items_len(v);
    if v.len() > 0 {
        let e = enc_u64_items(v);
        let rest = v.drop_first();
        lemma_enc_u64_items_len(rest);
        assert(spec_u64_to_le_bytes(v[0]).len() == 8);
        assert(data.subrange(pos, pos + 8) =~= e.subrange(0, 8));
        assert(e.subrange(0, 8) =~= spec_u64_to_le_bytes(v[0]));
        lemma_parse_u64_at(data, pos, v[0]);
        assert(data.subrange(pos + 8, pos + 8 + enc_u64_items(rest).len() as int)
            =~= e.subrange(8, e.len() as int));
        assert(e.subrange(8, e.len() as int) =~= enc_u64_items(rest));
        lemma_parse_u64_items_at(data, pos + 8, rest);
        assert(seq![v[0]] + rest =~= v);
    }
}

pub proof fn lemma_parse_u64_list_at(data: Seq<u8>, pos: int, v: Seq<u64>)
    requires
        list_fits(v.len()),
        0 <= pos,
        pos + enc_u64_list(v).len() <= data.len(),
        data.subrange(pos, pos + enc_u64_list(v).len() as int) == enc_u64_list(v),
    ensures
        parse_u64_list(data, pos) == Some((v, pos + enc_u64_list(v).len())),
{
    lemma_auto_spec_u32_to_from_le_bytes();
    let e = enc_u64_list(v);
    assert(spec_u32_to_le_bytes(v.len() as u32).len() == 4);
    lemma_enc_u64_items_len(v);
    assert(data.subrange(pos, pos + 4) =~= e.subrange(0, 4));
    assert(e.subrange(0, 4) =~= spec_u32_to_le_bytes(v.len() as u32));
    lemma_parse_u32_at(data, pos, v.len() as u32);
    assert(data.subrange(pos + 4, pos + 4 + enc_u64_items(v).len() as int)
        =~= e.subrange(4, e.len() as int));
    assert(e.subrange(4, e.len() as int) =~= enc_u64_items(v));
    lemma_parse_u64_items_at(data, pos + 4, v);
    assert(v.len() as u32 as int == v.len() as int);
}

/// Appends a counted u64 list; fails (leaving `out` unchanged) when the
/// count does not fit the 4-byte prefix.
pub fn put_u64_list(out: &mut Vec<u8>, v: &Vec<u64>) -> (ok: bool)
    ensures
        ok ==> list_fits(v@.len()) && final(out)@ == old(out)@ + enc_u64_list(v@),
        !ok ==> !list_fits(v@.len()) && final(out)@ == old(out)@,
{
    if v.len() as u64 > u32::MAX as u64 {
        return false;
    }
    put_u32(out, v.len() as u32);
    let mut i: usize = 0;
    while i < v.len()
        invariant
            i <= v@.len(),
            out@ == old(out)@ + spec_u32_to_le_bytes(v@.len() as u32)
                + enc_u64_items(v@.take(i as int)),
        decreases v@.len() - i,
    {
        put_u64(out, v[i]);
        proof {
            assert(v@.take(i + 1int) =~= v@.take(i as int).push(v@[i as int]));
            lemma_enc_u64_items_snoc(v@.take(i as int), v@[i as int]);
        }
        i = i + 1;
    }
    proof {
        assert(v@.take(v@.len() as int) =~= v@);
    }
    true
}

/// Reads a counted u64 list at `pos`.
pub fn read_u64_list(data: &[u8], pos: usize) -> (r: Option<(Vec<u64>, usize)>)
    ensures
        r matches Some((v, p)) ==> parse_u64_list(data@, pos as int) == Some((v@, p as int)),
        r is None ==> parse_u64_list(data@, pos as int) is None,
{
    let n = match read_u32(data, pos) {
        Some((n, p)) => n,
        None => {
            return None;
        },
    };
    let mut cur: usize = pos + 4;
    let mut out: Vec<u64> = Vec::new();
    let mut i: u32 = 0;
    proof {
        match parse_u64_items(data@, pos + 4int, n as int) {
            Some((v, q)) => {
                assert(Seq::<u64>::empty() + v =~= v);
            },
            None => {},
        }
    }
    while i < n
        invariant
            i <= n,
            parse_u32(data@, pos as int) == Some((n, pos + 4int)),
            cur <= data@.len(),
            match parse_u64_items(data@, cur as int, n as int - i as int) {
                Some((v, q)) => parse_u64_items(data@, pos + 4int, n as int)
                    == Some((out@ + v, q)),
                None => parse_u64_items(data@, pos + 4int, n as int) is None,
            },
        decreases n - i,
    {
        match read_u64(data, cur) {
            Some((x, p)) => {
                proof {
                    match parse_u64_items(data@, p as int, n as int - i as int - 1) {
                        Some((v, q)) => {
                            assert(parse_u64_items(data@, cur as int, n as int - i as int)
                                == Some((seq![x] + v, q)));
                            assert(out@.push(x) + v =~= out@ + (seq![x] + v));
                        },
                        None => {},
                    }
                }
                out.push(x);
                cur = p;
            },
            None => {
                return None;
            },
        }
        i = i + 1;
    }
    proof {
        assert(out@ + Seq::<u64>::empty() =~= out@);
    }
    Some((out, cur))
}

/// The items of a u32 list, back to back.
pub open spec fn enc_u32_items(v: Seq<u32>) -> Seq<u8>
    decreases v.len(),
{
    if v.len() == 0 {
        Seq::empty()
    } else {
        spec_u32_to_le_bytes(v[0]) + enc_u32_items(v.drop_first())
    }
}

/// A 4-byte count followed by the items, 4 bytes each.
pub open spec fn enc_u32_list(v: Seq<u32>) -> Seq<u8> {
    spec_u32_to_le_bytes(v.len() as u32) + enc_u32_items(v)
}

/// Parses `n` u32 items at `pos`.
pub open spec fn parse_u32_items(data: Seq<u8>, pos: int, n: int) -> Option<(Seq<u32>, int)>
    decreases n,
{
    if n <= 0 {
        Some((Seq::empty(), pos))
    } else {
        match parse_u32(data, pos) {
            Some((x, p)) => match parse_u32_items(data, p, n - 1) {
                Some((rest, q)) => Some((seq![x] + rest, q)),
                None => None,
            },
            None => None,
        }
    }
}

/// Parses a counted u32 list at `pos`.
pub open spec fn parse_u32_list(data: Seq<u8>, pos: int) -> Option<(Seq<u32>, int)> {
    match parse_u32(data, pos) {
        Some((n, p)) => parse_u32_items(data, p, n as int),
        None => None,
    }
}

pub proof fn lemma_enc_u32_items_len(v: Seq<u32>)
    ensures
        enc_u32_items(v).len() == 4 * v.len(),
    decreases v.len(),
{
    lemma_auto_spec_u32_to_from_le_bytes();
    if v.len() > 0 {
        assert(spec_u32_to_le_bytes(v[0]).len() == 4);
        lemma_enc_u32_items_len(v.drop_first());
    }
}

pub proof fn lemma_enc_u32_items_snoc(v: Seq<u32>, x: u32)
    ensures
        enc_u32_items(v.push(x)) == enc_u32_items(v) + spec_u32_to_le_bytes(x),
    decreases v.len(),
{
    reveal_with_fuel(enc_u32_items, 2);
    if v.len() == 0 {
        assert(v.push(x)[0] == x);
        assert(v.push(x).drop_first() =~= Seq::<u32>::empty());
        assert(enc_u32_items(v.push(x)) =~= enc_u32_items(v) + spec_u32_to_le_bytes(x));
    } else {
        assert(v.push(x).drop_first() =~= v.drop_first().push(x));
        assert(v.push(x)[0] == v[0]);
        lemma_enc_u32_items_snoc(v.drop_first(), x);
        assert(enc_u32_items(v.push(x)) =~= enc_u32_items(v) + spec_u32_to_le_bytes(x));
    }
}

pub proof fn lemma_parse_u32_items_at(data: Seq<u8>, pos: int, v: Seq<u32>)
    requires
        0 <= pos,
        pos + enc_u32_items(v).len() <= data.len(),
        data.subrange(pos, pos + enc_u32_items(v).len() as int) == enc_u32_items(v),
    ensures
        parse_u32_items(data, pos, v.len() as int)
            == Some((v, pos + enc_u32_items(v).len())),
    decreases v.len(),
{
    lemma_auto_spec_u32_to_from_le_bytes();
    lemma_enc_u32_items_len(v);
    if v.len() > 0 {
        let e = enc_u32_items(v);
        let rest = v.drop_first();
        lemma_enc_u32_items_len(rest);
        assert(spec_u32_to_le_bytes(v[0]).len() == 4);
        assert(data.subrange(pos, pos + 4) =~= e.subrange(0, 4));
        assert(e.subrange(0, 4) =~= spec_u32_to_le_bytes(v[0]));
        lemma_parse_u32_at(data, pos, v[0]);
        assert(data.subrange(pos + 4, pos + 4 + enc_u32_items(rest).len() as int)
            =~= e.subrange(4, e.len() as int));
        assert(e.subrange(4, e.len() as int) =~= enc_u32_items(rest));
        lemma_parse_u32_items_at(data, pos + 4, rest);
        assert(seq![v[0]] + rest =~= v);
    }
}

pub proof fn lemma_parse_u32_list_at(data: Seq<u8>, pos: int, v: Seq<u32>)
    requires
        list_fits(v.len()),
        0 <= pos,
        pos + enc_u32_list(v).len() <= data.len(),
        data.subrange(pos, pos + enc_u32_list(v).len() as int) == enc_u32_list(v),
    ensures
        parse_u32_list(data, pos) == Some((v, pos + enc_u32_list(v).len())),
{
    lemma_auto_spec_u32_to_from_le_bytes();
    let e = enc_u32_list(v);
    assert(spec_u32_to_le_bytes(v.len() as u32).len() == 4);
    lemma_enc_u32_items_len(v);
    assert(data.subrange(pos, pos + 4) =~= e.subrange(0, 4));
    assert(e.subrange(0, 4) =~= spec_u32_to_le_bytes(v.len() as u32));
    lemma_parse_u32_at(data, pos, v.len() as u32);
    assert(data.subrange(pos + 4, pos + 4 + enc_u32_items(v).len() as int)
        =~= e.subrange(4, e.len() as int));
    assert(e.subrange(4, e.len() as int) =~= enc_u32_items(v));
    lemma_parse_u32_items_at(data, pos + 4, v);
    assert(v.len() as u32 as int == v.len() as int);
}

/// Appends a counted u32 list; fails (leaving `out` unchanged) when the
/// count does not fit the 4-byte prefix.
pub fn put_u32_list(out: &mut Vec<u8>, v: &Vec<u32>) -> (ok: bool)
    ensures
        ok ==> list_fits(v@.len()) && final(out)@ == old(out)@ + enc_u32_list(v@),
        !ok ==> !list_fits(v@.len()) && final(out)@ == old(out)@,
{
    if v.len() as u64 > u32::MAX as u64 {
        return false;
    }
    put_u32(out, v.len() as u32);
    let mut i: usize = 0;
    while i < v.len()
        invariant
            i <= v@.len(),
            out@ == old(out)@ + spec_u32_to_le_bytes(v@.len() as u32)
                + enc_u32_items(v@.take(i as int)),
        decreases v@.len() - i,
    {
        put_u32(out, v[i]);
        proof {
            assert(v@.take(i + 1int) =~= v@.take(i as int).push(v@[i as int]));
            lemma_enc_u32_items_snoc(v@.take(i as int), v@[i as int]);
        }
        i = i + 1;
    }
    proof {
        assert(v@.take(v@.len() as int) =~= v@);
    }
    true
}

/// Reads a counted u32 list at `pos`.
pub fn read_u32_list(data: &[u8], pos: usize) -> (r: Option<(Vec<u32>, usize)>)
    ensures
        r matches Some((v, p)) ==> parse_u32_list(data@, pos as int) == Some((v@, p as int)),
        r is None ==> parse_u32_list(data@, pos as int) is None,
{
    let n = match read_u32(data, pos) {
        Some((n, p)) => n,
        None => {
            return None;
        },
    };
    let mut cur: usize = pos + 4;
    let mut out: Vec<u32> = Vec::new();
    let mut i: u32 = 0;
    proof {
        match parse_u32_items(data@, pos + 4int, n as int) {
            Some((v, q)) => {
                assert(Seq::<u32>::empty() + v =~= v);
            },
            None => {},
        }
    }
    while i < n
        invariant
            i <= n,
            parse_u32(data@, pos as int) == Some((n, pos + 4int)),
            cur <= data@.len(),
            match parse_u32_items(data@, cur as int, n as int - i as int) {
                Some((v, q)) => parse_u32_items(data@, pos + 4int, n as int)
                    == Some((out@ + v, q)),
                None => parse_u32_items(data@, pos + 4int, n as int) is None,
            },
        decreases n - i,
    {
        match read_u32(data, cur) {
            Some((x, p)) => {
                proof {
                    match parse_u32_items(data@, p as int, n as int - i as int - 1) {
                        Some((v, q)) => {
                            assert(parse_u32_items(data@, cur as int, n as int - i as int)
                                == Some((seq![x] + v, q)));
                            assert(out@.push(x) + v =~= out@ + (seq![x] + v));
                        },
                        None => {},
                    }
                }
                out.push(x);
                cur = p;
            },
            None => {
                return None;
            },
        }
        i = i + 1;
    }
    proof {
        assert(out@ + Seq::<u32>::empty() =~= out@);
    }
    Some((out, cur))
}

/// Reads a length-prefixed UTF-8 string at `pos`.
pub fn read_str(data: &[u8], pos: usize) -> (r: Option<(String, usize)>)
    ensures
        r matches Some((s, p)) ==> parse_str(data@, pos as int) == Some((s@, p as int)),
        r is None ==> parse_str(data@, pos as int) is None,
{
    match read_bytes(data, pos) {
        Some((v, p)) => match vec_to_string(v) {
            Some(s) => Some((s, p)),
            None => None,
        },
        None => None,
    }
}

// ---------------------------------------------------------------------
// Counted lists of string pairs (metadata maps)
// ---------------------------------------------------------------------

/// The view of a list of owned string pairs.
pub open spec fn pairs_view(v: Seq<(String, String)>) -> Seq<(Seq<char>, Seq<char>)> {
    Seq::new(v.len(), |i: int| (v[i].0@, v[i].1@))
}

/// One metadata entry: a length-prefixed key then a length-prefixed value.
pub open spec fn enc_pair(kv: (Seq<char>, Seq<char>)) -> Seq<u8> {
    enc_str(kv.0) + enc_str(kv.1)
}

/// The entries of a metadata list, back to back.
pub open spec fn enc_pair_items(v: Seq<(Seq<char>, Seq<char>)>) -> Seq<u8>
    decreases v.len(),
{
    if v.len() == 0 {
        Seq::empty()
    } else {
        enc_pair(v[0]) + enc_pair_items(v.drop_first())
    }
}

/// A 4-byte count followed by the entries.
pub open spec fn enc_pair_list(v: Seq<(Seq<char>, Seq<char>)>) -> Seq<u8> {
    spec_u32_to_le_bytes(v.len() as u32) + enc_pair_items(v)
}

/// Whether every key and value fits its length prefix, and the count its
/// own.
pub open spec fn pairs_fit(v: Seq<(Seq<char>, Seq<char>)>) -> bool {
    list_fits(v.len()) && forall|i: int| #![trigger v[i]]
        0 <= i < v.len() ==> str_fits(v[i].0) && str_fits(v[i].1)
}

/// Parses one metadata entry at `pos`.
pub open spec fn parse_pair(data: Seq<u8>, pos: int) -> Option<((Seq<char>, Seq<char>), int)> {
    match parse_str(data, pos) {
        Some((k, p)) => match parse_str(data, p) {
            Some((w, q)) => Some(((k, w), q)),
            None => None,
        },
        None => None,
    }
}

/// Parses `n` metadata entries at `pos`.
pub open spec fn parse_pair_items(data: Seq<u8>, pos: int, n: int) -> Option<(
    Seq<(Seq<char>, Seq<char>)>,
    int,
)>
    decreases n,
{
    if n <= 0 {
        Some((Seq::empty(), pos))
    } else {
        match parse_pair(data, pos) {
            Some((kv, p)) => match parse_pair_items(data, p, n - 1) {
                Some((rest, q)) => Some((seq![kv] + rest, q)),
                None => None,
            },
            None => None,
        }
    }
}

/// Parses a counted metadata list at `pos`.
pub open spec fn parse_pair_list(data: Seq<u8>, pos: int) -> Option<(
    Seq<(Seq<char>, Seq<char>)>,
    int,
)> {
    match parse_u32(data, pos) {
        Some((n, p)) => parse_pair_items(data, p, n as int),
        None => None,
    }
}

pub proof fn lemma_enc_pair_items_snoc(v: Seq<(Seq<char>, Seq<char>)>, kv: (Seq<char>, Seq<char>))
    ensures
        enc_pair_items(v.push(kv)) == enc_pair_items(v) + enc_pair(kv),
    decreases v.len(),
{
    reveal_with_fuel(enc_pair_items, 2);
    if v.len() == 0 {
        assert(v.push(kv)[0] == kv);
        assert(v.push(kv).drop_first() =~= Seq::<(Seq<char>, Seq<char>)>::empty());
        assert(enc_pair_items(v.push(kv)) =~= enc_pair_items(v) + enc_pair(kv));
    } else {
        assert(v.push(kv).drop_first() =~= v.drop_first().push(kv));
        assert(v.push(kv)[0] == v[0]);
        lemma_enc_pair_items_snoc(v.drop_first(), kv);
        assert(enc_pair_items(v.push(kv)) =~= enc_pair_items(v) + enc_pair(kv));
    }
}

pub proof fn lemma_parse_pair_at(data: Seq<u8>, pos: int, kv: (Seq<char>, Seq<char>))
    requires
        str_fits(kv.0),
        str_fits(kv.1),
        0 <= pos,
        pos + enc_pair(kv).len() <= data.len(),
        data.subrange(pos, pos + enc_pair(kv).len() as int) == enc_pair(kv),
    ensures
        parse_pair(data, pos) == Some((kv, pos + enc_pair(kv).len())),
{
    let e = enc_pair(kv);
    let k = enc_str(kv.0);
    let w = enc_str(kv.1);
    assert(data.subrange(pos, pos + k.len() as int) =~= e.subrange(0, k.len() as int));
    assert(e.subrange(0, k.len() as int) =~= k);
    lemma_parse_str_at(data, pos, kv.0);
    assert(data.subrange(pos + k.len(), pos + k.len() + w.len()) =~= e.subrange(
        k.len() as int,
        e.len() as int,
    ));
    assert(e.subrange(k.len() as int, e.len() as int) =~= w);
    lemma_parse_str_at(data, pos + k.len() as int, kv.1);
}

pub proof fn lemma_parse_pair_items_at(data: Seq<u8>, pos: int, v: Seq<(Seq<char>, Seq<char>)>)
    requires
        pairs_fit(v),
        0 <= pos,
        pos + enc_pair_items(v).len() <= data.len(),
        data.subrange(pos, pos + enc_pair_items(v).len() as int) == enc_pair_items(v),
    ensures
        parse_pair_items(data, pos, v.len() as int)
            == Some((v, pos + enc_pair_items(v).len())),
    decreases v.len(),
{
    if v.len() > 0 {
        let e = enc_pair_items(v);
        let first = enc_pair(v[0]);
        let rest = v.drop_first();
        assert(data.subrange(pos, pos + first.len() as int)
            =~= e.subrange(0, first.len() as int));
        assert(e.subrange(0, first.len() as int) =~= first);
        lemma_parse_pair_at(data, pos, v[0]);
        assert(data.subrange(pos + first.len(), pos + first.len() + enc_pair_items(rest).len())
            =~= e.subrange(first.len() as int, e.len() as int));
        assert(e.subrange(first.len() as int, e.len() as int) =~= enc_pair_items(rest));
        assert(pairs_fit(rest)) by {
            assert(forall|i: int| 0 <= i < rest.len() ==> rest[i] == v[i + 1]);
        }
        lemma_parse_pair_items_at(data, pos + first.len() as int, rest);
        assert(seq![v[0]] + rest =~= v);
    }
}

pub proof fn lemma_parse_pair_list_at(data: Seq<u8>, pos: int, v: Seq<(Seq<char>, Seq<char>)>)
    requires
        pairs_fit(v),
        0 <= pos,
        pos + enc_pair_list(v).len() <= data.len(),
        data.subrange(pos, pos + enc_pair_list(v).len() as int) == enc_pair_list(v),
    ensures
        parse_pair_list(data, pos) == Some((v, pos + enc_pair_list(v).len())),
{
    lemma_auto_spec_u32_to_from_le_bytes();
    let e = enc_pair_list(v);
    assert(spec_u32_to_le_bytes(v.len() as u32).len() == 4);
    assert(data.subrange(pos, pos + 4) =~= e.subrange(0, 4));
    assert(e.subrange(0, 4) =~= spec_u32_to_le_bytes(v.len() as u32));
    lemma_parse_u32_at(data, pos, v.len() as u32);
    assert(data.subrange(pos + 4, pos + 4 + enc_pair_items(v).len() as int)
        =~= e.subrange(4, e.len() as int));
    assert(e.subrange(4, e.len() as int) =~= enc_pair_items(v));
    lemma_parse_pair_items_at(data, pos + 4, v);
    assert(v.len() as u32 as int == v.len() as int);
}

/// Appends a counted metadata list; fails (leaving `out` unchanged) when
/// the count or any key or value does not fit its length prefix.
pub fn put_pair_list(out: &mut Vec<u8>, v: &Vec<(String, String)>) -> (ok: bool)
    ensures
        ok ==> pairs_fit(pairs_view(v@)) && final(out)@ == old(out)@
            + enc_pair_list(pairs_view(v@)),
        !ok ==> !pairs_fit(pairs_view(v@)) && final(out)@ == old(out)@,
{
    if v.len() as u64 > u32::MAX as u64 {
        return false;
    }
    let mut i: usize = 0;
    while i < v.len()
        invariant
            i <= v@.len(),
            forall|j: int| #![trigger pairs_view(v@)[j]] 0 <= j < i
                ==> str_fits(pairs_view(v@)[j].0) && str_fits(pairs_view(v@)[j].1),
        decreases v@.len() - i,
    {
        let kv = &v[i];
        let ks: &str = kv.0.as_str();
        let kb: &[u8] = ks.as_bytes();
        proof {
            assert(ks@ == v@[i as int].0@);
            assert(kb@ == encode_utf8(ks@));
            assert(pairs_view(v@)[i as int] == (v@[i as int].0@, v@[i as int].1@));
        }
        if kb.len() as u64 > u32::MAX as u64 {
            proof {
                assert(!str_fits(pairs_view(v@)[i as int].0));
            }
            return false;
        }
        let ws: &str = kv.1.as_str();
        let wb: &[u8] = ws.as_bytes();
        proof {
            assert(ws@ == v@[i as int].1@);
            assert(wb@ == encode_utf8(ws@));
        }
        if wb.len() as u64 > u32::MAX as u64 {
            proof {
                assert(!str_fits(pairs_view(v@)[i as int].1));
            }
            return false;
        }
        proof {
            assert(str_fits(pairs_view(v@)[i as int].0));
            assert(str_fits(pairs_view(v@)[i as int].1));
        }
        i = i + 1;
    }
    proof {
        assert(pairs_fit(pairs_view(v@)));
    }
    put_u32(out, v.len() as u32);
    let mut i: usize = 0;
    while i < v.len()
        invariant
            i <= v@.len(),
            pairs_fit(pairs_view(v@)),
            out@ == old(out)@ + spec_u32_to_le_bytes(v@.len() as u32)
                + enc_pair_items(pairs_view(v@).take(i as int)),
        decreases v@.len() - i,
    {
        let kv = &v[i];
        proof {
            assert(pairs_view(v@)[i as int] == (v@[i as int].0@, v@[i as int].1@));
            assert(str_fits(v@[i as int].0@) && str_fits(v@[i as int].1@));
        }
        let ok_k = put_str(out, kv.0.as_str());
        proof {
            assert(ok_k);
        }
        let ok_w = put_str(out, kv.1.as_str());
        proof {
            assert(ok_w);
            assert(pairs_view(v@).take(i + 1int)
                =~= pairs_view(v@).take(i as int).push(pairs_view(v@)[i as int]));
            lemma_enc_pair_items_snoc(pairs_view(v@).take(i as int), pairs_view(v@)[i as int]);
        }
        i = i + 1;
    }
    proof {
        assert(pairs_view(v@).take(v@.len() as int) =~= pairs_view(v@));
    }
    true
}

/// Reads a counted metadata list at `pos`.
pub fn read_pair_list(data: &[u8], pos: usize) -> (r: Option<(Vec<(String, String)>, usize)>)
    ensures
        r matches Some((v, p)) ==> parse_pair_list(data@, pos as int)
            == Some((pairs_view(v@), p as int)),
        r is None ==> parse_pair_list(data@, pos as int) is None,
{
    let n = match read_u32(data, pos) {
        Some((n, p)) => n,
        None => {
            return None;
        },
    };
    let mut cur: usize = pos + 4;
    let mut out: Vec<(String, String)> = Vec::new();
    let mut i: u32 = 0;
    proof {
        assert(pairs_view(out@) =~= Seq::<(Seq<char>, Seq<char>)>::empty());
        match parse_pair_items(data@, pos + 4int, n as int) {
            Some((v, q)) => {
                assert(pairs_view(out@) + v =~= v);
            },
            None => {},
        }
    }
    while i < n
        invariant
            i <= n,
            parse_u32(data@, pos as int) == Some((n, pos + 4int)),
            cur <= data@.len(),
            match parse_pair_items(data@, cur as int, n as int - i as int) {
                Some((v, q)) => parse_pair_items(data@, pos + 4int, n as int)
                    == Some((pairs_view(out@) + v, q)),
                None => parse_pair_items(data@, pos + 4int, n as int) is None,
            },
        decreases n - i,
    {
        let (k, p1) = match read_str(data, cur) {
            Some(kp) => kp,
            None => {
                return None;
            },
        };
        let (w, p2) = match read_str(data, p1) {
            Some(wp) => wp,
            None => {
                return None;
            },
        };
        proof {
            assert(parse_pair(data@, cur as int) == Some(((k@, w@), p2 as int)));
            match parse_pair_items(data@, p2 as int, n as int - i as int - 1) {
                Some((v, q)) => {
                    assert(parse_pair_items(data@, cur as int, n as int - i as int)
                        == Some((seq![(k@, w@)] + v, q)));
                    assert(pairs_view(out@.push((k, w))) =~= pairs_view(out@).push((k@, w@)));
                    assert(pairs_view(out@).push((k@, w@)) + v
                        =~= pairs_view(out@) + (seq![(k@, w@)] + v));
                },
                None => {},
            }
        }
        out.push((k, w));
        cur = p2;
        i = i + 1;
    }
    proof {
        assert(pairs_view(out@) + Seq::<(Seq<char>, Seq<char>)>::empty() =~= pairs_view(out@));
    }
    Some((out, cur))
}

} // verus!
