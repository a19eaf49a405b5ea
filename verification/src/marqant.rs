//! The compressed markdown document format.
//!
//! A document carries a header (format version, compression level, the
//! sizes before and after compression, the SHA-256 content hash of the
//! text, and a small metadata map), the compressed payload, and the
//! semantic index of the original text.
//!
//! On the wire: the magic `MQ03`, a length-prefixed header block, a
//! length-prefixed semantic-index block, and the compressed payload as
//! the remaining bytes.  All integers are little-endian; every length
//! field counts the bytes of the field that follows it.

use vstd::prelude::*;
use vstd::bytes::spec_u64_to_le_bytes;
use vstd::bytes::lemma_auto_spec_u64_to_from_le_bytes;
use vstd::bytes::lemma_auto_spec_u32_to_from_le_bytes;
use vstd::slice::slice_subrange;
use vstd::slice::slice_to_vec;
use vstd::utf8::valid_utf8;
use vstd::utf8::decode_utf8;
use vstd::utf8::encode_utf8;
use vstd::utf8::encode_utf8_valid_utf8;
use vstd::utf8::encode_utf8_decode_utf8;
use vstd::string::StringExecFns;
use crate::M8Error;
use crate::wire::enc_bytes;
use crate::wire::parse_bytes;
use crate::wire::parse_u8;
use crate::wire::parse_u64;
use crate::wire::parse_raw;
use crate::wire::enc_u32_list;
use crate::wire::parse_u32_list;
use crate::wire::enc_pair_list;
use crate::wire::parse_pair_list;
use crate::wire::pairs_fit;
use crate::wire::pairs_view;
use crate::wire::list_fits;
use crate::wire::put_u64;
use crate::wire::put_bytes;
use crate::wire::put_u32_list;
use crate::wire::put_pair_list;
use crate::wire::read_u8;
use crate::wire::read_u64;
use crate::wire::read_sig;
use crate::wire::read_bytes;
use crate::wire::read_u32_list;
use crate::wire::read_pair_list;
use crate::wire::lemma_parse_u64_at;
use crate::wire::lemma_parse_bytes_at;
use crate::wire::lemma_parse_u32_list_at;
use crate::wire::lemma_parse_pair_list_at;
use crate::semantic::SemanticIndex;
use crate::semantic::SemanticIndexV;
use crate::semantic::semantic_of;
use crate::semantic::scan_semantic;
use crate::semantic::index_in_range;
use crate::semantic::lemma_semantic_in_range;
use crate::digest::sha256;
use crate::digest::sha256_of;
use crate::compress::deflate;
use crate::compress::inflate;
use crate::compress::deflate_of;
use crate::compress::inflate_of;
use crate::text::bytes_to_string_lossy;
use crate::text::utf8_lossy_of;

verus! {

/// The header of a compressed document.
#[derive(Debug)]
pub struct MarqantHeader {
    pub version: u8,
    pub compression_level: u8,
    pub original_size: u64,
    pub compressed_size: u64,
    pub wave_signature: [u8; 32],
    pub metadata: Vec<(String, String)>,
}

/// The mathematical view of a document header.
#[verifier::ext_equal]
pub ghost struct MarqantHeaderV {
    pub version: u8,
    pub compression_level: u8,
    pub original_size: u64,
    pub compressed_size: u64,
    pub wave_signature: Seq<u8>,
    pub metadata: Seq<(Seq<char>, Seq<char>)>,
}

impl View for MarqantHeader {
    type V = MarqantHeaderV;

    open spec fn view(&self) -> MarqantHeaderV {
        MarqantHeaderV {
            version: self.version,
            compression_level: self.compression_level,
            original_size: self.original_size,
            compressed_size: self.compressed_size,
            wave_signature: self.wave_signature@,
            metadata: pairs_view(self.metadata@),
        }
    }
}

/// A compressed markdown document.
#[derive(Debug)]
pub struct Marqant {
    pub header: MarqantHeader,
    pub wave_data: Vec<u8>,
    pub semantic_map: SemanticIndex,
}

/// The mathematical view of a document.
#[verifier::ext_equal]
pub ghost struct MarqantV {
    pub header: MarqantHeaderV,
    pub wave_data: Seq<u8>,
    pub semantic_map: SemanticIndexV,
}

impl View for Marqant {
    type V = MarqantV;

    open spec fn view(&self) -> MarqantV {
        MarqantV {
            header: self.header@,
            wave_data: self.wave_data@,
            semantic_map: self.semantic_map@,
        }
    }
}

// ---------------------------------------------------------------------
// Wire layout
// ---------------------------------------------------------------------

/// The four magic bytes `MQ03`.
pub open spec fn mq_magic() -> Seq<u8> {
    seq![77u8, 81u8, 48u8, 51u8]
}

/// The one document version this codec understands.
pub const MQ_VERSION: u8 = 3;

/// The header block: version, level, the two sizes, the 32-byte content
/// hash, and the metadata map.
pub open spec fn enc_mq_header(h: MarqantHeaderV) -> Seq<u8> {
    seq![h.version, h.compression_level]
        + spec_u64_to_le_bytes(h.original_size)
        + spec_u64_to_le_bytes(h.compressed_size)
        + h.wave_signature
        + enc_pair_list(h.metadata)
}

/// Parses a header block; the block must be consumed exactly, and a
/// version the decoder does not understand is a parse failure.
pub open spec fn parse_mq_header_block(hb: Seq<u8>) -> Option<MarqantHeaderV> {
    match parse_u8(hb, 0) {
        Some((version, p0)) => if version != MQ_VERSION {
            None
        } else {
            match parse_u8(hb, p0) {
            Some((level, p1)) => match parse_u64(hb, p1) {
                Some((osz, p2)) => match parse_u64(hb, p2) {
                    Some((csz, p3)) => match parse_raw(hb, p3, 32) {
                        Some((sig, p4)) => match parse_pair_list(hb, p4) {
                            Some((md, p5)) => if p5 == hb.len() {
                                Some(MarqantHeaderV {
                                    version,
                                    compression_level: level,
                                    original_size: osz,
                                    compressed_size: csz,
                                    wave_signature: sig,
                                    metadata: md,
                                })
                            } else {
                                None
                            },
                            None => None,
                        },
                        None => None,
                    },
                    None => None,
                },
                None => None,
            },
            None => None,
        }
        },
        None => None,
    }
}

/// The semantic-index block: the three offset lists in a fixed order.
pub open spec fn enc_sem(s: SemanticIndexV) -> Seq<u8> {
    enc_u32_list(s.headers) + enc_u32_list(s.code_blocks) + enc_u32_list(s.links)
}

/// Parses a semantic-index block; the block must be consumed exactly.
pub open spec fn parse_sem_block(sb: Seq<u8>) -> Option<SemanticIndexV> {
    match parse_u32_list(sb, 0) {
        Some((hs, p1)) => match parse_u32_list(sb, p1) {
            Some((cb, p2)) => match parse_u32_list(sb, p2) {
                Some((ls, p3)) => if p3 == sb.len() {
                    Some(SemanticIndexV { headers: hs, code_blocks: cb, links: ls })
                } else {
                    None
                },
                None => None,
            },
            None => None,
        },
        None => None,
    }
}

/// Whether a header can be serialized and read back: the version is the
/// one the decoder understands, and the variable-length parts fit their
/// length prefixes.
pub open spec fn mq_header_fits(h: MarqantHeaderV) -> bool {
    h.version == MQ_VERSION && h.wave_signature.len() == 32 && pairs_fit(h.metadata)
        && enc_mq_header(h).len() <= u32::MAX
}

/// Whether a semantic index fits its length prefixes.
pub open spec fn sem_fits(s: SemanticIndexV) -> bool {
    list_fits(s.headers.len()) && list_fits(s.code_blocks.len()) && list_fits(s.links.len())
        && enc_sem(s).len() <= u32::MAX
}

/// Whether a document can be serialized at all.
pub open spec fn mq_wire_fits(m: MarqantV) -> bool {
    mq_header_fits(m.header) && sem_fits(m.semantic_map)
}

/// The serialized form of a document.
pub open spec fn enc_marqant(m: MarqantV) -> Seq<u8> {
    mq_magic() + enc_bytes(enc_mq_header(m.header)) + enc_bytes(enc_sem(m.semantic_map))
        + m.wave_data
}

/// Parses a serialized document: the magic, the two blocks, and the
/// remaining bytes as the compressed payload.
pub open spec fn parse_marqant(data: Seq<u8>) -> Option<MarqantV> {
    if data.len() >= 4 && data.subrange(0, 4) == mq_magic() {
        match parse_bytes(data, 4) {
            Some((hb, p1)) => match parse_mq_header_block(hb) {
                Some(h) => match parse_bytes(data, p1) {
                    Some((sb, p2)) => match parse_sem_block(sb) {
                        Some(s) => Some(MarqantV {
                            header: h,
                            wave_data: data.subrange(p2, data.len() as int),
                            semantic_map: s,
                        }),
                        None => None,
                    },
                    None => None,
                },
                None => None,
            },
            None => None,
        }
    } else {
        None
    }
}

/// Parsing a header block inverts encoding it.
proof fn lemma_parse_mq_header_block(h: MarqantHeaderV)
    requires
        h.version == MQ_VERSION,
        h.wave_signature.len() == 32,
        pairs_fit(h.metadata),
    ensures
        parse_mq_header_block(enc_mq_header(h)) == Some(h),
{
    lemma_auto_spec_u64_to_from_le_bytes();
    lemma_auto_spec_u32_to_from_le_bytes();
    let e = enc_mq_header(h);
    let ml = enc_pair_list(h.metadata);
    assert(spec_u64_to_le_bytes(h.original_size).len() == 8);
    assert(spec_u64_to_le_bytes(h.compressed_size).len() == 8);
    assert(e.len() == 50 + ml.len());
    assert(e[0] == h.version);
    assert(e[1] == h.compression_level);
    assert(e.subrange(2, 10) =~= spec_u64_to_le_bytes(h.original_size));
    lemma_parse_u64_at(e, 2, h.original_size);
    assert(e.subrange(10, 18) =~= spec_u64_to_le_bytes(h.compressed_size));
    lemma_parse_u64_at(e, 10, h.compressed_size);
    assert(e.subrange(18, 50) =~= h.wave_signature);
    assert(e.subrange(50, e.len() as int) =~= ml);
    lemma_parse_pair_list_at(e, 50, h.metadata);
    assert(parse_mq_header_block(e) =~= Some(h));
}

/// Parsing a semantic-index block inverts encoding it.
proof fn lemma_parse_sem_block(s: SemanticIndexV)
    requires
        list_fits(s.headers.len()),
        list_fits(s.code_blocks.len()),
        list_fits(s.links.len()),
    ensures
        parse_sem_block(enc_sem(s)) == Some(s),
{
    let e = enc_sem(s);
    let h = enc_u32_list(s.headers);
    let c = enc_u32_list(s.code_blocks);
    let l = enc_u32_list(s.links);
    assert(e.subrange(0, h.len() as int) =~= h);
    lemma_parse_u32_list_at(e, 0, s.headers);
    assert(e.subrange(h.len() as int, (h.len() + c.len()) as int) =~= c);
    lemma_parse_u32_list_at(e, h.len() as int, s.code_blocks);
    assert(e.subrange((h.len() + c.len()) as int, e.len() as int) =~= l);
    lemma_parse_u32_list_at(e, (h.len() + c.len()) as int, s.links);
    assert(parse_sem_block(e) =~= Some(s));
}

/// Parsing a serialized document inverts serialization.
pub proof fn lemma_parse_marqant(m: MarqantV)
    requires
        mq_wire_fits(m),
    ensures
        parse_marqant(enc_marqant(m)) == Some(m),
{
    lemma_auto_spec_u32_to_from_le_bytes();
    let data = enc_marqant(m);
    let hb = enc_mq_header(m.header);
    let sb = enc_sem(m.semantic_map);
    assert(enc_bytes(hb).len() == 4 + hb.len());
    assert(enc_bytes(sb).len() == 4 + sb.len());
    assert(data.subrange(0, 4) =~= mq_magic());
    assert(data.subrange(4, 4 + enc_bytes(hb).len() as int) =~= enc_bytes(hb));
    lemma_parse_bytes_at(data, 4, hb);
    let p1 = 4 + enc_bytes(hb).len() as int;
    lemma_parse_mq_header_block(m.header);
    assert(data.subrange(p1, p1 + enc_bytes(sb).len() as int) =~= enc_bytes(sb));
    lemma_parse_bytes_at(data, p1, sb);
    let p2 = p1 + enc_bytes(sb).len() as int;
    lemma_parse_sem_block(m.semantic_map);
    assert(data.subrange(p2, data.len() as int) =~= m.wave_data);
    assert(parse_marqant(data) =~= Some(m));
}

// ---------------------------------------------------------------------
// Executable codec
// ---------------------------------------------------------------------

/// Whether the slice starts with the magic `MQ03`.
fn check_mq_magic(data: &[u8]) -> (r: bool)
    ensures
        r <==> (data@.len() >= 4 && data@.subrange(0, 4) == mq_magic()),
{
    if data.len() < 4 {
        return false;
    }
    let ok = data[0] == 77 && data[1] == 81 && data[2] == 48 && data[3] == 51;
    proof {
        assert(data@.subrange(0, 4).len() == 4);
        assert(data@.subrange(0, 4)[0] == data@[0]);
        assert(data@.subrange(0, 4)[1] == data@[1]);
        assert(data@.subrange(0, 4)[2] == data@[2]);
        assert(data@.subrange(0, 4)[3] == data@[3]);
        if ok {
            assert(data@.subrange(0, 4) =~= mq_magic());
        }
    }
    ok
}

/// Reads a header block; the block must be consumed exactly.
fn read_mq_header_block(hb: &[u8]) -> (r: Option<MarqantHeader>)
    ensures
        r matches Some(h) ==> parse_mq_header_block(hb@) == Some(h@),
        r is None ==> parse_mq_header_block(hb@) is None,
{
    let (version, p0) = match read_u8(hb, 0) {
        Some(x) => x,
        None => {
            return None;
        },
    };
    if version != MQ_VERSION {
        return None;
    }
    let (level, p1) = match read_u8(hb, p0) {
        Some(x) => x,
        None => {
            return None;
        },
    };
    let (osz, p2) = match read_u64(hb, p1) {
        Some(x) => x,
        None => {
            return None;
        },
    };
    let (csz, p3) = match read_u64(hb, p2) {
        Some(x) => x,
        None => {
            return None;
        },
    };
    let (sig, p4) = match read_sig(hb, p3) {
        Some(x) => x,
        None => {
            return None;
        },
    };
    let (md, p5) = match read_pair_list(hb, p4) {
        Some(x) => x,
        None => {
            return None;
        },
    };
    if p5 != hb.len() {
        return None;
    }
    let h = MarqantHeader {
        version,
        compression_level: level,
        original_size: osz,
        compressed_size: csz,
        wave_signature: sig,
        metadata: md,
    };
    proof {
        assert(parse_mq_header_block(hb@) =~= Some(h@));
    }
    Some(h)
}

/// Reads a semantic-index block; the block must be consumed exactly.
fn read_sem_block(sb: &[u8]) -> (r: Option<SemanticIndex>)
    ensures
        r matches Some(s) ==> parse_sem_block(sb@) == Some(s@),
        r is None ==> parse_sem_block(sb@) is None,
{
    let (headers, p1) = match read_u32_list(sb, 0) {
        Some(x) => x,
        None => {
            return None;
        },
    };
    let (code_blocks, p2) = match read_u32_list(sb, p1) {
        Some(x) => x,
        None => {
            return None;
        },
    };
    let (links, p3) = match read_u32_list(sb, p2) {
        Some(x) => x,
        None => {
            return None;
        },
    };
    if p3 != sb.len() {
        return None;
    }
    let s = SemanticIndex { headers, code_blocks, links };
    proof {
        assert(parse_sem_block(sb@) =~= Some(s@));
    }
    Some(s)
}

impl Marqant {
    /// Serializes the document.  Fails exactly when a length field would
    /// not fit its 4-byte prefix.
    pub fn to_bytes(&self) -> (r: Result<Vec<u8>, M8Error>)
        ensures
            r matches Ok(v) ==> mq_wire_fits(self@) && v@ == enc_marqant(self@)
                && parse_marqant(v@) == Some(self@),
            r matches Err(e) ==> !mq_wire_fits(self@) && e == M8Error::Format,
    {
        if self.header.version != MQ_VERSION {
            return Err(M8Error::Format);
        }
        let mut hb: Vec<u8> = Vec::new();
        hb.push(self.header.version);
        hb.push(self.header.compression_level);
        put_u64(&mut hb, self.header.original_size);
        put_u64(&mut hb, self.header.compressed_size);
        hb.extend_from_slice(self.header.wave_signature.as_slice());
        if !put_pair_list(&mut hb, &self.header.metadata) {
            return Err(M8Error::Format);
        }
        proof {
            assert(hb@ =~= enc_mq_header(self@.header));
        }
        let mut sb: Vec<u8> = Vec::new();
        if !put_u32_list(&mut sb, &self.semantic_map.headers) {
            return Err(M8Error::Format);
        }
        if !put_u32_list(&mut sb, &self.semantic_map.code_blocks) {
            return Err(M8Error::Format);
        }
        if !put_u32_list(&mut sb, &self.semantic_map.links) {
            return Err(M8Error::Format);
        }
        proof {
            assert(sb@ =~= enc_sem(self@.semantic_map));
        }
        let mut out: Vec<u8> = Vec::new();
        out.push(77);
        out.push(81);
        out.push(48);
        out.push(51);
        if !put_bytes(&mut out, hb.as_slice()) {
            return Err(M8Error::Format);
        }
        if !put_bytes(&mut out, sb.as_slice()) {
            return Err(M8Error::Format);
        }
        out.extend_from_slice(self.wave_data.as_slice());
        proof {
            assert(out@ =~= enc_marqant(self@));
            lemma_parse_marqant(self@);
        }
        Ok(out)
    }

    /// Deserializes a document.  Fails exactly when the buffer does not
    /// parse: a missing magic, a truncated block, or trailing bytes in a
    /// block.
    pub fn from_bytes(data: &[u8]) -> (r: Result<Marqant, M8Error>)
        ensures
            r matches Ok(m) ==> parse_marqant(data@) == Some(m@),
            r matches Err(e) ==> parse_marqant(data@) is None && e == M8Error::Format,
    {
        if !check_mq_magic(data) {
            return Err(M8Error::Format);
        }
        let (hb, p1) = match read_bytes(data, 4) {
            Some(x) => x,
            None => {
                return Err(M8Error::Format);
            },
        };
        let header = match read_mq_header_block(hb.as_slice()) {
            Some(h) => h,
            None => {
                return Err(M8Error::Format);
            },
        };
        let (sb, p2) = match read_bytes(data, p1) {
            Some(x) => x,
            None => {
                return Err(M8Error::Format);
            },
        };
        let semantic_map = match read_sem_block(sb.as_slice()) {
            Some(s) => s,
            None => {
                return Err(M8Error::Format);
            },
        };
        let wave_data = slice_to_vec(slice_subrange(data, p2, data.len()));
        let m = Marqant { header, wave_data, semantic_map };
        proof {
            assert(parse_marqant(data@) =~= Some(m@));
        }
        Ok(m)
    }

    /// The document that encoding a text produces: the deflated bytes as
    /// payload, the SHA-256 hash of the uncompressed text, the two
    /// sizes, a fixed metadata map, and the text's semantic index.
    pub open spec fn mq_encode(b: Seq<u8>) -> MarqantV {
        MarqantV {
            header: MarqantHeaderV {
                version: MQ_VERSION,
                compression_level: 9u8,
                original_size: b.len() as u64,
                compressed_size: deflate_of(b).len() as u64,
                wave_signature: sha256_of(b),
                metadata: seq![("format"@, "marqant"@), ("encoding"@, "quantum-wave"@)],
            },
            wave_data: deflate_of(b),
            semantic_map: semantic_of(b),
        }
    }

    /// Encodes a text given as bytes.  Encoding always succeeds (the
    /// compressor does not fail on in-memory output); the resulting
    /// document decodes back to the input byte-for-byte, its sizes are
    /// positive for non-empty input, and every semantic offset lies
    /// within the text.
    pub fn from_markdown_bytes(data: &[u8]) -> (r: Result<Marqant, M8Error>)
        requires
            data@.len() <= u32::MAX,
        ensures
            r is Ok,
            r matches Ok(doc) ==> doc@ == Self::mq_encode(data@)
                && inflate_of(doc@.wave_data) == Some(data@)
                && doc@.header.compressed_size > 0
                && (data@.len() > 0 ==> doc@.header.original_size > 0)
                && index_in_range(doc@.semantic_map, data@.len() as int),
    {
        let semantic_map = scan_semantic(data);
        let wave_data = match deflate(data) {
            Ok(v) => v,
            Err(_) => {
                proof {
                    assert(false);
                }
                return Err(M8Error::Format);
            },
        };
        let sig = sha256(data);
        let mut metadata: Vec<(String, String)> = Vec::new();
        metadata.push((String::from_str("format"), String::from_str("marqant")));
        metadata.push((String::from_str("encoding"), String::from_str("quantum-wave")));
        let header = MarqantHeader {
            version: MQ_VERSION,
            compression_level: 9,
            original_size: data.len() as u64,
            compressed_size: wave_data.len() as u64,
            wave_signature: sig,
            metadata,
        };
        let doc = Marqant { header, wave_data, semantic_map };
        proof {
            lemma_semantic_in_range(data@);
            assert(doc@ =~= Self::mq_encode(data@));
        }
        Ok(doc)
    }

    /// Encodes a markdown string: the text's UTF-8 bytes go through
    /// `from_markdown_bytes`, and encoding always succeeds.
    pub fn from_markdown(markdown: &str) -> (r: Result<Marqant, M8Error>)
        requires
            encode_utf8(markdown@).len() <= u32::MAX,
        ensures
            r is Ok,
            r matches Ok(doc) ==> doc@ == Self::mq_encode(encode_utf8(markdown@))
                && inflate_of(doc@.wave_data) == Some(encode_utf8(markdown@))
                && doc@.header.compressed_size > 0
                && (markdown@.len() > 0 ==> doc@.header.original_size > 0)
                && index_in_range(doc@.semantic_map, encode_utf8(markdown@).len() as int),
    {
        Self::from_markdown_bytes(markdown.as_bytes())
    }

    /// Decompresses the payload back to the original bytes.  Fails
    /// exactly when the payload is not a well-formed compressed stream.
    pub fn to_markdown_bytes(&self) -> (r: Result<Vec<u8>, M8Error>)
        ensures
            r matches Ok(v) ==> inflate_of(self.wave_data@) == Some(v@),
            r matches Err(e) ==> inflate_of(self.wave_data@) is None && e == M8Error::Format,
    {
        inflate(self.wave_data.as_slice())
    }

    /// Decompresses the payload and renders it as text, lossily on
    /// invalid UTF-8.
    pub fn to_markdown(&self) -> (r: Result<String, M8Error>)
        ensures
            r matches Ok(s) ==> (match inflate_of(self.wave_data@) {
                Some(b) => s@ == utf8_lossy_of(b) && (valid_utf8(b) ==> s@ == decode_utf8(b)),
                None => false,
            }),
            r matches Err(e) ==> inflate_of(self.wave_data@) is None && e == M8Error::Format,
    {
        match inflate(self.wave_data.as_slice()) {
            Ok(v) => Ok(bytes_to_string_lossy(v.as_slice())),
            Err(_) => Err(M8Error::Format),
        }
    }
}

/// Decoding inverts encoding: a document built from the UTF-8 bytes of a
/// markdown text decompresses to exactly those bytes, which decode to
/// exactly the original text.  The premises are what `from_markdown`
/// guarantees of every document it returns.
pub proof fn lemma_markdown_round_trip(m: Seq<char>, doc: MarqantV)
    requires
        doc == Marqant::mq_encode(encode_utf8(m)),
        inflate_of(doc.wave_data) == Some(encode_utf8(m)),
    ensures
        match inflate_of(doc.wave_data) {
            Some(b) => valid_utf8(b) && decode_utf8(b) == m,
            None => false,
        },
{
    encode_utf8_valid_utf8(m);
    encode_utf8_decode_utf8(m);
}

} // verus!
