//! The generic binary container format.
//!
//! A container wraps a typed payload, the SHA-256 content hash of the
//! payload, and header metadata into one versioned blob.  On the wire:
//! the magic `M8C1`, a length-prefixed header block, the 32-byte content
//! hash, an 8-byte payload length, and the payload bytes.  All integers
//! are little-endian.
//!
//! The content hash is computed once, at construction, over the exact
//! payload bytes; identical payloads hash identically whatever path
//! built them, which is what makes the registry content-addressed.

use vstd::prelude::*;
use vstd::bytes::spec_u32_to_le_bytes;
use vstd::bytes::spec_u64_to_le_bytes;
use vstd::bytes::lemma_auto_spec_u32_to_from_le_bytes;
use vstd::bytes::lemma_auto_spec_u64_to_from_le_bytes;
use vstd::slice::slice_subrange;
use vstd::slice::slice_to_vec;
use vstd::utf8::valid_utf8;
use vstd::utf8::decode_utf8;
use vstd::utf8::encode_utf8;
use vstd::string::StringExecFns;
use vstd::string::StrSliceExecFns;
use crate::M8Error;
use crate::wire::enc_bytes;
use crate::wire::parse_bytes;
use crate::wire::parse_u8;
use crate::wire::parse_u32;
use crate::wire::lemma_parse_u32_at;
use crate::wire::parse_u64;
use crate::wire::parse_raw;
use crate::wire::enc_u64_list;
use crate::wire::parse_u64_list;
use crate::wire::enc_pair_list;
use crate::wire::parse_pair_list;
use crate::wire::pairs_fit;
use crate::wire::pairs_view;
use crate::wire::list_fits;
use crate::wire::put_u32;
use crate::wire::put_u64;
use crate::wire::put_bytes;
use crate::wire::put_u64_list;
use crate::wire::put_pair_list;
use crate::wire::read_u8;
use crate::wire::read_u64;
use crate::wire::read_sig;
use crate::wire::read_bytes;
use crate::wire::read_u64_list;
use crate::wire::read_pair_list;
use crate::wire::lemma_parse_u64_at;
use crate::wire::lemma_parse_bytes_at;
use crate::wire::lemma_parse_u64_list_at;
use crate::wire::lemma_parse_pair_list_at;
use crate::marqant::Marqant;
use crate::marqant::enc_marqant;
use crate::marqant::parse_marqant;
use crate::marqant::mq_wire_fits;
use crate::digest::sha256;
use crate::digest::sha256_of;
use crate::compress::inflate_of;
use crate::engine::MemoryEngine;
use crate::engine::WaveTriple;
use crate::text::bytes_to_string_lossy;
use crate::text::utf8_lossy_of;
use crate::text::u64_to_string;
use crate::text::dec_chars_of;
use crate::clock::now_secs;

verus! {

/// The closed set of container content types.
#[derive(Clone, Copy, Debug, PartialEq, Eq, Structural)]
pub enum M8ContentType {
    Marqant,
    WavePattern,
    Language,
    Visual,
    Audio,
    Compound,
}

/// The header of a container.
#[derive(Debug)]
pub struct M8Header {
    pub version: u8,
    pub content_type: M8ContentType,
    pub timestamp: u64,
    pub memory_ids: Vec<u64>,
    pub emotional_context: [u8; 3],
    pub metadata: Vec<(String, String)>,
}

/// The mathematical view of a container header.
#[verifier::ext_equal]
pub ghost struct M8HeaderV {
    pub version: u8,
    pub content_type: M8ContentType,
    pub timestamp: u64,
    pub memory_ids: Seq<u64>,
    pub emotional_context: Seq<u8>,
    pub metadata: Seq<(Seq<char>, Seq<char>)>,
}

impl View for M8Header {
    type V = M8HeaderV;

    open spec fn view(&self) -> M8HeaderV {
        M8HeaderV {
            version: self.version,
            content_type: self.content_type,
            timestamp: self.timestamp,
            memory_ids: self.memory_ids@,
            emotional_context: self.emotional_context@,
            metadata: pairs_view(self.metadata@),
        }
    }
}

/// A container: header, payload, and the content hash of the payload.
#[derive(Debug)]
pub struct M8Container {
    pub header: M8Header,
    pub data: Vec<u8>,
    pub wave_signature: [u8; 32],
}

/// The mathematical view of a container.
#[verifier::ext_equal]
pub ghost struct M8ContainerV {
    pub header: M8HeaderV,
    pub data: Seq<u8>,
    pub wave_signature: Seq<u8>,
}

impl View for M8Container {
    type V = M8ContainerV;

    open spec fn view(&self) -> M8ContainerV {
        M8ContainerV {
            header: self.header@,
            data: self.data@,
            wave_signature: self.wave_signature@,
        }
    }
}

/// The content hash is the SHA-256 digest of the exact payload bytes.
/// Constructors establish this; deserialization copies the stored hash
/// verbatim instead.
pub open spec fn hash_consistent(c: M8ContainerV) -> bool {
    c.wave_signature == sha256_of(c.data)
}

// ---------------------------------------------------------------------
// Wire layout
// ---------------------------------------------------------------------

/// The four magic bytes `M8C1`.
pub open spec fn m8_magic() -> Seq<u8> {
    seq![77u8, 56u8, 67u8, 49u8]
}

/// The tag byte of a content type.
pub open spec fn tag_of(t: M8ContentType) -> u8 {
    match t {
        M8ContentType::Marqant => 0,
        M8ContentType::WavePattern => 1,
        M8ContentType::Language => 2,
        M8ContentType::Visual => 3,
        M8ContentType::Audio => 4,
        M8ContentType::Compound => 5,
    }
}

/// The content type of a tag byte; unknown tags are rejected.
pub open spec fn type_of_tag(b: u8) -> Option<M8ContentType> {
    if b == 0 {
        Some(M8ContentType::Marqant)
    } else if b == 1 {
        Some(M8ContentType::WavePattern)
    } else if b == 2 {
        Some(M8ContentType::Language)
    } else if b == 3 {
        Some(M8ContentType::Visual)
    } else if b == 4 {
        Some(M8ContentType::Audio)
    } else if b == 5 {
        Some(M8ContentType::Compound)
    } else {
        None
    }
}

/// The header block: version, content-type tag, timestamp, memory
/// handles, the 3-byte affect vector, and the metadata map.
pub open spec fn enc_m8_header(h: M8HeaderV) -> Seq<u8> {
    seq![h.version, tag_of(h.content_type)]
        + spec_u64_to_le_bytes(h.timestamp)
        + enc_u64_list(h.memory_ids)
        + h.emotional_context
        + enc_pair_list(h.metadata)
}

/// Parses a header block; the block must be consumed exactly, and an
/// unknown content-type tag is a parse failure.
pub open spec fn parse_m8_header_block(hb: Seq<u8>) -> Option<M8HeaderV> {
    match parse_u8(hb, 0) {
        Some((version, p0)) => match parse_u8(hb, p0) {
            Some((tag, p1)) => match type_of_tag(tag) {
                Some(ct) => match parse_u64(hb, p1) {
                    Some((ts, p2)) => match parse_u64_list(hb, p2) {
                        Some((ids, p3)) => match parse_raw(hb, p3, 3) {
                            Some((emo, p4)) => match parse_pair_list(hb, p4) {
                                Some((md, p5)) => if p5 == hb.len() {
                                    Some(M8HeaderV {
                                        version,
                                        content_type: ct,
                                        timestamp: ts,
                                        memory_ids: ids,
                                        emotional_context: emo,
                                        metadata: md,
                                    })
                                } else {
                                    None
                                },
                                None => None,
                            },
                            None => None,
                        },
                        None => None,
                    },
                    None => None,
                },
                None => None,
            },
            None => None,
        },
        None => None,
    }
}

/// Whether a container's variable-length parts fit their length fields.
pub open spec fn m8_wire_fits(c: M8ContainerV) -> bool {
    &&& c.header.emotional_context.len() == 3
    &&& c.wave_signature.len() == 32
    &&& list_fits(c.header.memory_ids.len())
    &&& pairs_fit(c.header.metadata)
    &&& enc_m8_header(c.header).len() <= u32::MAX
    &&& c.data.len() <= u64::MAX
}

/// The serialized form of a container.
pub open spec fn enc_m8(c: M8ContainerV) -> Seq<u8> {
    m8_magic() + enc_bytes(enc_m8_header(c.header)) + c.wave_signature
        + spec_u64_to_le_bytes(c.data.len() as u64) + c.data
}

/// Parses an 8-byte length-prefixed payload at `pos`; the declared
/// length must lie within the buffer.
pub open spec fn parse_payload(data: Seq<u8>, pos: int) -> Option<(Seq<u8>, int)> {
    match parse_u64(data, pos) {
        Some((n, p)) => if p + n <= data.len() {
            Some((data.subrange(p, p + n), p + n))
        } else {
            None
        },
        None => None,
    }
}

/// Parses a serialized container: the magic, the header block, the
/// 32-byte hash copied verbatim, and the length-prefixed payload.
pub open spec fn parse_m8(data: Seq<u8>) -> Option<M8ContainerV> {
    if data.len() >= 4 && data.subrange(0, 4) == m8_magic() {
        match parse_bytes(data, 4) {
            Some((hb, p1)) => match parse_m8_header_block(hb) {
                Some(h) => match parse_raw(data, p1, 32) {
                    Some((sig, p2)) => match parse_payload(data, p2) {
                        Some((payload, p3)) => Some(M8ContainerV {
                            header: h,
                            data: payload,
                            wave_signature: sig,
                        }),
                        None => None,
                    },
                    None => None,
                },
                None => None,
            },
            None => None,
        }
    } else {
        None
    }
}

/// Parsing a header block inverts encoding it.
proof fn lemma_parse_m8_header_block(h: M8HeaderV)
    requires
        h.emotional_context.len() == 3,
        list_fits(h.memory_ids.len()),
        pairs_fit(h.metadata),
    ensures
        parse_m8_header_block(enc_m8_header(h)) == Some(h),
{
    lemma_auto_spec_u64_to_from_le_bytes();
    lemma_auto_spec_u32_to_from_le_bytes();
    let e = enc_m8_header(h);
    let il = enc_u64_list(h.memory_ids);
    let ml = enc_pair_list(h.metadata);
    assert(spec_u64_to_le_bytes(h.timestamp).len() == 8);
    assert(e.len() == 10 + il.len() + 3 + ml.len());
    assert(e[0] == h.version);
    assert(e[1] == tag_of(h.content_type));
    assert(type_of_tag(tag_of(h.content_type)) == Some(h.content_type));
    assert(e.subrange(2, 10) =~= spec_u64_to_le_bytes(h.timestamp));
    lemma_parse_u64_at(e, 2, h.timestamp);
    assert(e.subrange(10, 10 + il.len() as int) =~= il);
    lemma_parse_u64_list_at(e, 10, h.memory_ids);
    let p3 = 10 + il.len() as int;
    assert(e.subrange(p3, p3 + 3) =~= h.emotional_context);
    let p4 = p3 + 3;
    assert(e.subrange(p4, e.len() as int) =~= ml);
    lemma_parse_pair_list_at(e, p4, h.metadata);
    assert(parse_m8_header_block(e) =~= Some(h));
}

/// Parsing a serialized container inverts serialization and reproduces
/// the header fields, the hash, and the payload exactly.
pub proof fn lemma_parse_m8(c: M8ContainerV)
    requires
        m8_wire_fits(c),
    ensures
        parse_m8(enc_m8(c)) == Some(c),
{
    lemma_auto_spec_u32_to_from_le_bytes();
    lemma_auto_spec_u64_to_from_le_bytes();
    let data = enc_m8(c);
    let hb = enc_m8_header(c.header);
    assert(enc_bytes(hb).len() == 4 + hb.len());
    assert(spec_u64_to_le_bytes(c.data.len() as u64).len() == 8);
    assert(data.subrange(0, 4) =~= m8_magic());
    assert(data.subrange(4, 4 + enc_bytes(hb).len() as int) =~= enc_bytes(hb));
    lemma_parse_bytes_at(data, 4, hb);
    lemma_parse_m8_header_block(c.header);
    let p1 = 4 + enc_bytes(hb).len() as int;
    assert(data.subrange(p1, p1 + 32) =~= c.wave_signature);
    let p2 = p1 + 32;
    assert(data.subrange(p2, p2 + 8) =~= spec_u64_to_le_bytes(c.data.len() as u64));
    lemma_parse_u64_at(data, p2, c.data.len() as u64);
    let p3 = p2 + 8;
    assert(data.subrange(p3, p3 + c.data.len() as int) =~= c.data);
    assert(parse_m8(data) =~= Some(c));
}

/// A buffer shorter than any declared length field is rejected: no
/// strict prefix of a serialized container parses.
pub proof fn lemma_truncation_rejected(c: M8ContainerV, i: int)
    requires
        m8_wire_fits(c),
        0 <= i < enc_m8(c).len(),
    ensures
        parse_m8(enc_m8(c).take(i)) is None,
{
    lemma_auto_spec_u32_to_from_le_bytes();
    lemma_auto_spec_u64_to_from_le_bytes();
    let data = enc_m8(c);
    let t = data.take(i);
    let hb = enc_m8_header(c.header);
    assert(enc_bytes(hb).len() == 4 + hb.len());
    assert(spec_u64_to_le_bytes(c.data.len() as u64).len() == 8);
    let p1 = 8 + hb.len() as int;
    let p2 = p1 + 32;
    let p3 = p2 + 8;
    assert(data.len() == p3 + c.data.len());
    assert(forall|j: int| 0 <= j < i ==> t[j] == data[j]);
    if i < 4 {
        assert(t.len() < 4);
    } else {
        assert(t.subrange(0, 4) =~= m8_magic()) by {
            assert(data.subrange(0, 4) =~= m8_magic());
            assert(t.subrange(0, 4) =~= data.subrange(0, 4));
        }
        if i < 8 {
            assert(parse_u32(t, 4) is None);
        } else {
            assert(t.subrange(4, 8) =~= spec_u32_to_le_bytes(hb.len() as u32)) by {
                assert(data.subrange(4, 4 + enc_bytes(hb).len() as int) =~= enc_bytes(hb));
                assert(data.subrange(4, 8) =~= enc_bytes(hb).subrange(0, 4));
                assert(enc_bytes(hb).subrange(0, 4) =~= spec_u32_to_le_bytes(hb.len() as u32));
                assert(t.subrange(4, 8) =~= data.subrange(4, 8));
            }
            lemma_parse_u32_at(t, 4, hb.len() as u32);
            if i < p1 {
                assert(8 + hb.len() > t.len());
                assert(parse_bytes(t, 4) is None);
            } else {
                assert(t.subrange(8, p1) =~= hb) by {
                    assert(data.subrange(4, 4 + enc_bytes(hb).len() as int) =~= enc_bytes(hb));
                    assert(data.subrange(8, p1) =~= enc_bytes(hb).subrange(
                        4,
                        enc_bytes(hb).len() as int,
                    ));
                    assert(enc_bytes(hb).subrange(4, enc_bytes(hb).len() as int) =~= hb);
                    assert(t.subrange(8, p1) =~= data.subrange(8, p1));
                }
                assert(parse_bytes(t, 4) == Some((hb, p1)));
                lemma_parse_m8_header_block(c.header);
                if i < p2 {
                    assert(parse_raw(t, p1, 32) is None);
                } else {
                    if i < p3 {
                        assert(parse_u64(t, p2) is None);
                    } else {
                        assert(t.subrange(p2, p3) =~= spec_u64_to_le_bytes(c.data.len() as u64))
                            by {
                            assert(data.subrange(p2, p3) =~= spec_u64_to_le_bytes(
                                c.data.len() as u64,
                            ));
                            assert(t.subrange(p2, p3) =~= data.subrange(p2, p3));
                        }
                        lemma_parse_u64_at(t, p2, c.data.len() as u64);
                        assert(p3 + c.data.len() > t.len());
                        assert(parse_payload(t, p2) is None);
                    }
                }
            }
        }
    }
}

// ---------------------------------------------------------------------
// Executable codec
// ---------------------------------------------------------------------

/// Whether the slice starts with the magic `M8C1`.
fn check_m8_magic(data: &[u8]) -> (r: bool)
    ensures
        r <==> (data@.len() >= 4 && data@.subrange(0, 4) == m8_magic()),
{
    if data.len() < 4 {
        return false;
    }
    let ok = data[0] == 77 && data[1] == 56 && data[2] == 67 && data[3] == 49;
    proof {
        assert(data@.subrange(0, 4).len() == 4);
        assert(data@.subrange(0, 4)[0] == data@[0]);
        assert(data@.subrange(0, 4)[1] == data@[1]);
        assert(data@.subrange(0, 4)[2] == data@[2]);
        assert(data@.subrange(0, 4)[3] == data@[3]);
        if ok {
            assert(data@.subrange(0, 4) =~= m8_magic());
        }
    }
    ok
}

/// The tag byte written for a content type.
fn tag_byte(t: &M8ContentType) -> (r: u8)
    ensures
        r == tag_of(*t),
{
    match t {
        M8ContentType::Marqant => 0,
        M8ContentType::WavePattern => 1,
        M8ContentType::Language => 2,
        M8ContentType::Visual => 3,
        M8ContentType::Audio => 4,
        M8ContentType::Compound => 5,
    }
}

/// The content type of a tag byte.
fn type_from_tag(b: u8) -> (r: Option<M8ContentType>)
    ensures
        r == type_of_tag(b),
{
    if b == 0 {
        Some(M8ContentType::Marqant)
    } else if b == 1 {
        Some(M8ContentType::WavePattern)
    } else if b == 2 {
        Some(M8ContentType::Language)
    } else if b == 3 {
        Some(M8ContentType::Visual)
    } else if b == 4 {
        Some(M8ContentType::Audio)
    } else if b == 5 {
        Some(M8ContentType::Compound)
    } else {
        None
    }
}

/// Reads a header block; the block must be consumed exactly.
fn read_m8_header_block(hb: &[u8]) -> (r: Option<M8Header>)
    ensures
        r matches Some(h) ==> parse_m8_header_block(hb@) == Some(h@),
        r is None ==> parse_m8_header_block(hb@) is None,
{
    let (version, p0) = match read_u8(hb, 0) {
        Some(x) => x,
        None => {
            return None;
        },
    };
    let (tag, p1) = match read_u8(hb, p0) {
        Some(x) => x,
        None => {
            return None;
        },
    };
    let content_type = match type_from_tag(tag) {
        Some(ct) => ct,
        None => {
            return None;
        },
    };
    let (ts, p2) = match read_u64(hb, p1) {
        Some(x) => x,
        None => {
            return None;
        },
    };
    let (memory_ids, p3) = match read_u64_list(hb, p2) {
        Some(x) => x,
        None => {
            return None;
        },
    };
    if p3 > hb.len() || hb.len() - p3 < 3 {
        return None;
    }
    let emotional_context: [u8; 3] = [hb[p3], hb[p3 + 1], hb[p3 + 2]];
    proof {
        assert(emotional_context@ =~= hb@.subrange(p3 as int, p3 + 3));
    }
    let p4 = p3 + 3;
    let (metadata, p5) = match read_pair_list(hb, p4) {
        Some(x) => x,
        None => {
            return None;
        },
    };
    if p5 != hb.len() {
        return None;
    }
    let h = M8Header {
        version,
        content_type,
        timestamp: ts,
        memory_ids,
        emotional_context,
        metadata,
    };
    proof {
        assert(parse_m8_header_block(hb@) =~= Some(h@));
    }
    Some(h)
}

impl M8Container {
    /// Serializes the container.  Fails exactly when a length field
    /// would not fit its prefix.
    pub fn to_bytes(&self) -> (r: Result<Vec<u8>, M8Error>)
        ensures
            r matches Ok(v) ==> m8_wire_fits(self@) && v@ == enc_m8(self@)
                && parse_m8(v@) == Some(self@),
            r matches Err(e) ==> !m8_wire_fits(self@) && e == M8Error::Format,
    {
        let mut hb: Vec<u8> = Vec::new();
        hb.push(self.header.version);
        hb.push(tag_byte(&self.header.content_type));
        put_u64(&mut hb, self.header.timestamp);
        if !put_u64_list(&mut hb, &self.header.memory_ids) {
            return Err(M8Error::Format);
        }
        hb.extend_from_slice(self.header.emotional_context.as_slice());
        if !put_pair_list(&mut hb, &self.header.metadata) {
            return Err(M8Error::Format);
        }
        proof {
            assert(hb@ =~= enc_m8_header(self@.header));
        }
        let mut out: Vec<u8> = Vec::new();
        out.push(77);
        out.push(56);
        out.push(67);
        out.push(49);
        if !put_bytes(&mut out, hb.as_slice()) {
            return Err(M8Error::Format);
        }
        out.extend_from_slice(self.wave_signature.as_slice());
        put_u64(&mut out, self.data.len() as u64);
        out.extend_from_slice(self.data.as_slice());
        proof {
            assert(out@ =~= enc_m8(self@));
            lemma_parse_m8(self@);
        }
        Ok(out)
    }

    /// Deserializes a container.  Fails exactly when the buffer does not
    /// parse: a missing magic, an unknown tag, or a declared length that
    /// runs past the buffer; no byte outside the buffer is ever read.
    pub fn from_bytes(data: &[u8]) -> (r: Result<M8Container, M8Error>)
        ensures
            r matches Ok(c) ==> parse_m8(data@) == Some(c@),
            r matches Err(e) ==> parse_m8(data@) is None && e == M8Error::Format,
    {
        if !check_m8_magic(data) {
            return Err(M8Error::Format);
        }
        let (hb, p1) = match read_bytes(data, 4) {
            Some(x) => x,
            None => {
                return Err(M8Error::Format);
            },
        };
        let header = match read_m8_header_block(hb.as_slice()) {
            Some(h) => h,
            None => {
                return Err(M8Error::Format);
            },
        };
        let (wave_signature, p2) = match read_sig(data, p1) {
            Some(x) => x,
            None => {
                return Err(M8Error::Format);
            },
        };
        let (n, p3) = match read_u64(data, p2) {
            Some(x) => x,
            None => {
                return Err(M8Error::Format);
            },
        };
        if ((data.len() - p3) as u64) < n {
            return Err(M8Error::Format);
        }
        let end = p3 + n as usize;
        let payload = slice_to_vec(slice_subrange(data, p3, end));
        let c = M8Container { header, data: payload, wave_signature };
        proof {
            assert(parse_m8(data@) =~= Some(c@));
        }
        Ok(c)
    }
}

// ---------------------------------------------------------------------
// Construction
// ---------------------------------------------------------------------

/// One hundred times the compression ratio, rounded to the nearest
/// (halves away from zero) and saturated at the largest counter; zero
/// when nothing was compressed.
pub open spec fn ratio_times_100(osz: u64, csz: u64) -> int {
    if csz == 0 {
        0
    } else if (200 * osz + csz) / (2 * (csz as int)) > u64::MAX {
        u64::MAX as int
    } else {
        (200 * osz + csz) / (2 * (csz as int))
    }
}

/// The compression ratio rendered with two decimal places.
pub open spec fn ratio_chars(osz: u64, csz: u64) -> Seq<char> {
    let r = ratio_times_100(osz, csz);
    dec_chars_of(r / 100) + "."@ + (if r % 100 < 10 {
        "0"@
    } else {
        Seq::<char>::empty()
    }) + dec_chars_of(r % 100)
}

/// Renders the compression ratio with two decimal places.
fn build_ratio_string(osz: u64, csz: u64) -> (s: String)
    ensures
        s@ == ratio_chars(osz, csz),
{
    let r: u64 = if csz == 0 {
        0
    } else {
        let q: u128 = (200u128 * (osz as u128) + (csz as u128)) / (2 * (csz as u128));
        if q > u64::MAX as u128 {
            u64::MAX
        } else {
            q as u64
        }
    };
    proof {
        assert(r as int == ratio_times_100(osz, csz));
    }
    let mut s = u64_to_string(r / 100);
    s.append(".");
    if r % 100 < 10 {
        s.append("0");
    }
    let f = u64_to_string(r % 100);
    s.append(f.as_str());
    proof {
        assert(s@ =~= ratio_chars(osz, csz));
    }
    s
}

/// The little-endian bytes of one wave triple: amplitude, frequency,
/// phase.
pub open spec fn enc_triple(t: WaveTriple) -> Seq<u8> {
    spec_u32_to_le_bytes(t.amplitude) + spec_u32_to_le_bytes(t.frequency)
        + spec_u32_to_le_bytes(t.phase)
}

/// The triples' encodings back to back, in order.
pub open spec fn enc_triples(v: Seq<WaveTriple>) -> Seq<u8>
    decreases v.len(),
{
    if v.len() == 0 {
        Seq::empty()
    } else {
        enc_triple(v[0]) + enc_triples(v.drop_first())
    }
}

proof fn lemma_enc_triples_snoc(v: Seq<WaveTriple>, t: WaveTriple)
    ensures
        enc_triples(v.push(t)) == enc_triples(v) + enc_triple(t),
    decreases v.len(),
{
    reveal_with_fuel(enc_triples, 2);
    if v.len() == 0 {
        assert(v.push(t)[0] == t);
        assert(v.push(t).drop_first() =~= Seq::<WaveTriple>::empty());
        assert(enc_triples(v.push(t)) =~= enc_triples(v) + enc_triple(t));
    } else {
        assert(v.push(t).drop_first() =~= v.drop_first().push(t));
        assert(v.push(t)[0] == v[0]);
        lemma_enc_triples_snoc(v.drop_first(), t);
        assert(enc_triples(v.push(t)) =~= enc_triples(v) + enc_triple(t));
    }
}

/// The payload holds the little-endian encodings of one wave triple per
/// handle, in the handles' order.
pub open spec fn compound_payload(data: Seq<u8>, n: nat) -> bool {
    exists|ts: Seq<WaveTriple>| #![trigger enc_triples(ts)] ts.len() == n && data == enc_triples(ts)
}

impl M8Container {
    /// Wraps a serialized document: stores its markdown in the engine
    /// under importance 7, tags the container `Marqant`, and hashes the
    /// serialized bytes.  A document that cannot be serialized or
    /// decompressed is a format error, and exactly those documents are;
    /// an engine failure aborts the construction.
    pub fn from_marqant<E: MemoryEngine>(marqant: &Marqant, engine: &mut E) -> (r: Result<
        M8Container,
        M8Error,
    >)
        ensures
            (!mq_wire_fits(marqant@) || inflate_of(marqant@.wave_data) is None)
                ==> r == Err::<M8Container, M8Error>(M8Error::Format),
            r matches Ok(c) ==> mq_wire_fits(marqant@)
                && inflate_of(marqant@.wave_data) is Some
                && c@.data == enc_marqant(marqant@)
                && hash_consistent(c@)
                && c@.header.version == 1
                && c@.header.content_type == M8ContentType::Marqant
                && c@.header.memory_ids.len() == 1
                && c@.header.emotional_context == seq![128u8, 128u8, 128u8]
                && c@.header.metadata == seq![
                    ("source"@, "marqant"@),
                    (
                        "compression_ratio"@,
                        ratio_chars(
                            marqant@.header.original_size,
                            marqant@.header.compressed_size,
                        ),
                    ),
                ],
            r matches Err(e) ==> (e == M8Error::Format || e == M8Error::Engine)
                && (e == M8Error::Format ==> (!mq_wire_fits(marqant@)
                    || inflate_of(marqant@.wave_data) is None)),
    {
        let data = match marqant.to_bytes() {
            Ok(v) => v,
            Err(_) => {
                return Err(M8Error::Format);
            },
        };
        let text = match marqant.to_markdown() {
            Ok(s) => s,
            Err(_) => {
                return Err(M8Error::Format);
            },
        };
        let handle = match engine.store_text(text.as_str(), 7) {
            Ok(h) => h,
            Err(_) => {
                return Err(M8Error::Engine);
            },
        };
        let mut memory_ids: Vec<u64> = Vec::new();
        memory_ids.push(handle);
        let ratio = build_ratio_string(
            marqant.header.original_size,
            marqant.header.compressed_size,
        );
        let mut metadata: Vec<(String, String)> = Vec::new();
        metadata.push((String::from_str("source"), String::from_str("marqant")));
        metadata.push((String::from_str("compression_ratio"), ratio));
        let wave_signature = sha256(data.as_slice());
        let header = M8Header {
            version: 1,
            content_type: M8ContentType::Marqant,
            timestamp: now_secs(),
            memory_ids,
            emotional_context: [128u8, 128u8, 128u8],
            metadata,
        };
        let c = M8Container { header, data, wave_signature };
        proof {
            assert(c@.header.emotional_context =~= seq![128u8, 128u8, 128u8]);
            assert(c@.header.metadata =~= seq![
                ("source"@, "marqant"@),
                (
                    "compression_ratio"@,
                    ratio_chars(marqant@.header.original_size, marqant@.header.compressed_size),
                ),
            ]);
        }
        Ok(c)
    }

    /// Wraps a raw text: stores it in the engine under the given
    /// importance, tags the container `Language`, and keeps the text's
    /// UTF-8 bytes verbatim as the payload.  An engine failure aborts
    /// the construction.
    pub fn from_text<E: MemoryEngine>(text: &str, importance: u8, engine: &mut E) -> (r: Result<
        M8Container,
        M8Error,
    >)
        requires
            importance <= 9,
        ensures
            r matches Ok(c) ==> c@.data == encode_utf8(text@)
                && hash_consistent(c@)
                && c@.header.version == 1
                && c@.header.content_type == M8ContentType::Language
                && c@.header.memory_ids.len() == 1
                && c@.header.emotional_context == seq![128u8, 128u8, 128u8]
                && c@.header.metadata == seq![
                    ("source"@, "text"@),
                    ("length"@, dec_chars_of(encode_utf8(text@).len() as int)),
                ],
            r matches Err(e) ==> e == M8Error::Engine,
    {
        let handle = match engine.store_text(text, importance) {
            Ok(h) => h,
            Err(_) => {
                return Err(M8Error::Engine);
            },
        };
        let data = text.as_bytes_vec();
        let mut memory_ids: Vec<u64> = Vec::new();
        memory_ids.push(handle);
        let mut metadata: Vec<(String, String)> = Vec::new();
        metadata.push((String::from_str("source"), String::from_str("text")));
        metadata.push((String::from_str("length"), u64_to_string(data.len() as u64)));
        let wave_signature = sha256(data.as_slice());
        let header = M8Header {
            version: 1,
            content_type: M8ContentType::Language,
            timestamp: now_secs(),
            memory_ids,
            emotional_context: [128u8, 128u8, 128u8],
            metadata,
        };
        let c = M8Container { header, data, wave_signature };
        proof {
            assert(c@.header.emotional_context =~= seq![128u8, 128u8, 128u8]);
            assert(c@.header.metadata =~= seq![
                ("source"@, "text"@),
                ("length"@, dec_chars_of(encode_utf8(text@).len() as int)),
            ]);
        }
        Ok(c)
    }

    /// Binds several stored memories: fetches the wave pattern of each
    /// handle in the given order and appends each triple's little-endian
    /// encoding to the payload in that same order — the order determines
    /// the hash and therefore the addressed identity.  An engine failure
    /// aborts the construction with no partial result; with no handles to
    /// fetch, construction always succeeds.
    pub fn from_compound<E: MemoryEngine>(
        memory_ids: Vec<u64>,
        emotional_context: [u8; 3],
        engine: &mut E,
    ) -> (r: Result<M8Container, M8Error>)
        ensures
            memory_ids@.len() == 0 ==> r is Ok,
            r matches Ok(c) ==> compound_payload(c@.data, memory_ids@.len())
                && hash_consistent(c@)
                && c@.header.version == 1
                && c@.header.content_type == M8ContentType::Compound
                && c@.header.memory_ids == memory_ids@
                && c@.header.emotional_context == emotional_context@
                && c@.header.metadata == seq![
                    ("source"@, "compound"@),
                    ("memory_count"@, dec_chars_of(memory_ids@.len() as int)),
                ],
            r matches Err(e) ==> e == M8Error::Engine,
    {
        let mut data: Vec<u8> = Vec::new();
        let ghost mut ts: Seq<WaveTriple> = Seq::empty();
        let mut i: usize = 0;
        while i < memory_ids.len()
            invariant
                i <= memory_ids@.len(),
                ts.len() == i,
                data@ == enc_triples(ts),
            decreases memory_ids@.len() - i,
        {
            let t = match engine.fetch_pattern(memory_ids[i]) {
                Ok(t) => t,
                Err(_) => {
                    return Err(M8Error::Engine);
                },
            };
            put_u32(&mut data, t.amplitude);
            put_u32(&mut data, t.frequency);
            put_u32(&mut data, t.phase);
            proof {
                lemma_enc_triples_snoc(ts, t);
                ts = ts.push(t);
                assert(data@ =~= enc_triples(ts));
            }
            i = i + 1;
        }
        let count = u64_to_string(memory_ids.len() as u64);
        let mut metadata: Vec<(String, String)> = Vec::new();
        metadata.push((String::from_str("source"), String::from_str("compound")));
        metadata.push((String::from_str("memory_count"), count));
        let wave_signature = sha256(data.as_slice());
        proof {
            assert(compound_payload(data@, memory_ids@.len()));
        }
        let header = M8Header {
            version: 1,
            content_type: M8ContentType::Compound,
            timestamp: now_secs(),
            memory_ids,
            emotional_context,
            metadata,
        };
        let c = M8Container { header, data, wave_signature };
        proof {
            assert(c@.header.metadata =~= seq![
                ("source"@, "compound"@),
                ("memory_count"@, dec_chars_of(c@.header.memory_ids.len() as int)),
            ]);
        }
        Ok(c)
    }
}

// ---------------------------------------------------------------------
// Content extraction
// ---------------------------------------------------------------------

/// The display name of a content type.
pub open spec fn type_name_of(t: M8ContentType) -> Seq<char> {
    match t {
        M8ContentType::Marqant => "Marqant"@,
        M8ContentType::WavePattern => "WavePattern"@,
        M8ContentType::Language => "Language"@,
        M8ContentType::Visual => "Visual"@,
        M8ContentType::Audio => "Audio"@,
        M8ContentType::Compound => "Compound"@,
    }
}

/// The diagnostic line for a container with no canonical textual form.
pub open spec fn diag_chars(t: M8ContentType, len: int) -> Seq<char> {
    "M8 Container: "@ + type_name_of(t) + " with "@ + dec_chars_of(len) + " bytes of data"@
}

/// The display name of a content type.
fn content_type_name(t: &M8ContentType) -> (r: &'static str)
    ensures
        r@ == type_name_of(*t),
{
    match t {
        M8ContentType::Marqant => "Marqant",
        M8ContentType::WavePattern => "WavePattern",
        M8ContentType::Language => "Language",
        M8ContentType::Visual => "Visual",
        M8ContentType::Audio => "Audio",
        M8ContentType::Compound => "Compound",
    }
}

impl M8Container {
    /// Renders the container's content as text.  A `Marqant` payload is
    /// parsed and decompressed back to markdown; a `Language` payload is
    /// the text itself, lossily decoded; every other tag yields a fixed
    /// diagnostic line naming the tag and the payload length.
    pub fn extract_content(&self) -> (r: Result<String, M8Error>)
        ensures
            self@.header.content_type == M8ContentType::Language ==> (r matches Ok(s)
                && s@ == utf8_lossy_of(self@.data)
                && (valid_utf8(self@.data) ==> s@ == decode_utf8(self@.data))),
            self@.header.content_type == M8ContentType::Marqant ==> ((r matches Ok(s)
                ==> (match parse_marqant(self@.data) {
                    Some(m) => match inflate_of(m.wave_data) {
                        Some(b) => s@ == utf8_lossy_of(b) && (valid_utf8(b) ==> s@
                            == decode_utf8(b)),
                        None => false,
                    },
                    None => false,
                })) && (r matches Err(e) ==> e == M8Error::Format
                    && (match parse_marqant(self@.data) {
                        Some(m) => inflate_of(m.wave_data) is None,
                        None => true,
                    }))),
            (self@.header.content_type != M8ContentType::Language
                && self@.header.content_type != M8ContentType::Marqant) ==> (r matches Ok(s)
                && s@ == diag_chars(self@.header.content_type, self@.data.len() as int)),
    {
        match self.header.content_type {
            M8ContentType::Marqant => {
                let m = match Marqant::from_bytes(self.data.as_slice()) {
                    Ok(m) => m,
                    Err(_) => {
                        return Err(M8Error::Format);
                    },
                };
                m.to_markdown()
            },
            M8ContentType::Language => Ok(bytes_to_string_lossy(self.data.as_slice())),
            _ => {
                let mut s = String::from_str("M8 Container: ");
                s.append(content_type_name(&self.header.content_type));
                s.append(" with ");
                let n = u64_to_string(self.data.len() as u64);
                s.append(n.as_str());
                s.append(" bytes of data");
                proof {
                    assert(s@ =~= diag_chars(self@.header.content_type, self@.data.len() as int));
                }
                Ok(s)
            },
        }
    }
}

} // verus!
