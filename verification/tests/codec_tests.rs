use m8_nexus::hex;
use m8_nexus::M8Error;
use m8_nexus::digest::sha256;
use m8_nexus::marqant::Marqant;

#[test]
fn test_marqant_roundtrip() {
    let markdown = r#"# Test Document

This is a test document with **bold** and *italic* text.

## Code Example

```rust
fn main() {
    println!("Hello, quantum world!");
}
```

[Link to nowhere](https://example.com)
"#;

    let marqant = Marqant::from_markdown(markdown).unwrap();
    let recovered = marqant.to_markdown().unwrap();

    assert_eq!(markdown, recovered);
    let ratio = marqant.header.original_size as f64 / marqant.header.compressed_size as f64;
    println!("Compression ratio: {:.2}x", ratio);
}

#[test]
fn encode_small_document_exactly() {
    // 13 bytes of markdown: a header line at offset 0, nothing else.
    let marqant = Marqant::from_markdown("# Title\n\nBody").unwrap();
    assert_eq!(marqant.header.original_size, 13);
    assert!(marqant.header.compressed_size > 0);
    assert_eq!(marqant.header.version, 3);
    assert_eq!(marqant.header.compression_level, 9);
    assert_eq!(marqant.semantic_map.headers, vec![0]);
    assert!(marqant.semantic_map.code_blocks.is_empty());
    assert!(marqant.semantic_map.links.is_empty());
    assert_eq!(marqant.to_markdown().unwrap(), "# Title\n\nBody");
}

#[test]
fn compression_ratio_positive_and_consistent() {
    let text = "quantum ".repeat(4096);
    let marqant = Marqant::from_markdown(&text).unwrap();
    assert_eq!(marqant.header.original_size, text.len() as u64);
    assert!(marqant.header.compressed_size > 0);
    // A repetitive text must actually shrink: the compressor really ran.
    assert!(marqant.header.compressed_size < marqant.header.original_size);
    let ratio = marqant.header.original_size as f64 / marqant.header.compressed_size as f64;
    assert!(ratio > 0.0);
    let expected = text.len() as f64 / marqant.header.compressed_size as f64;
    assert!((ratio - expected).abs() < 1e-9);
}

#[test]
fn semantic_index_finds_all_categories() {
    let text = "# One\ntext\n## Two\n```\ncode\n```\nsee [a](b) and [c](d)\n####### not a header\n";
    let marqant = Marqant::from_markdown(text).unwrap();
    let bytes = text.as_bytes();
    assert_eq!(marqant.semantic_map.headers.len(), 2);
    for &off in &marqant.semantic_map.headers {
        assert_eq!(bytes[off as usize], b'#');
        assert!((off as u64) < marqant.header.original_size);
    }
    assert_eq!(marqant.semantic_map.code_blocks.len(), 2);
    for &off in &marqant.semantic_map.code_blocks {
        assert_eq!(&bytes[off as usize..off as usize + 3], b"```");
    }
    assert_eq!(marqant.semantic_map.links.len(), 2);
    for &off in &marqant.semantic_map.links {
        assert_eq!(bytes[off as usize], b'[');
    }
}

#[test]
fn header_scan_respects_line_endings() {
    // A carriage return directly before the line end is not content, so
    // a header with only whitespace before it does not match.
    let m = Marqant::from_markdown("# \r\nBody").unwrap();
    assert!(m.semantic_map.headers.is_empty());
    let m = Marqant::from_markdown("# \r").unwrap();
    assert!(m.semantic_map.headers.is_empty());
    // With real content before the ending, the line is a header.
    let m = Marqant::from_markdown("# x\r\nmore").unwrap();
    assert_eq!(m.semantic_map.headers, vec![0]);
    // A carriage return in the middle of a line is ordinary content.
    let m = Marqant::from_markdown("# \rx").unwrap();
    assert_eq!(m.semantic_map.headers, vec![0]);
}

#[test]
fn header_scan_whitespace_is_ascii() {
    // The scan is byte-based: a no-break space after the hashes is not
    // in the ASCII whitespace set, so the line is not a header.
    let m = Marqant::from_markdown("#\u{a0}Title").unwrap();
    assert!(m.semantic_map.headers.is_empty());
    // Tab and space are.
    let m = Marqant::from_markdown("#\tTitle").unwrap();
    assert_eq!(m.semantic_map.headers, vec![0]);
}

#[test]
fn marqant_wire_roundtrip() {
    let marqant = Marqant::from_markdown("# Title\n\n[x](y)\n").unwrap();
    let bytes = marqant.to_bytes().unwrap();
    assert_eq!(&bytes[0..4], b"MQ03");
    let back = Marqant::from_bytes(&bytes).unwrap();
    assert_eq!(back.header.version, marqant.header.version);
    assert_eq!(back.header.compression_level, marqant.header.compression_level);
    assert_eq!(back.header.original_size, marqant.header.original_size);
    assert_eq!(back.header.compressed_size, marqant.header.compressed_size);
    assert_eq!(back.header.wave_signature, marqant.header.wave_signature);
    assert_eq!(back.header.metadata, marqant.header.metadata);
    assert_eq!(back.wave_data, marqant.wave_data);
    assert_eq!(back.semantic_map.headers, marqant.semantic_map.headers);
    assert_eq!(back.semantic_map.code_blocks, marqant.semantic_map.code_blocks);
    assert_eq!(back.semantic_map.links, marqant.semantic_map.links);
    assert_eq!(back.to_markdown().unwrap(), "# Title\n\n[x](y)\n");
}

#[test]
fn marqant_metadata_is_fixed() {
    let marqant = Marqant::from_markdown("plain text").unwrap();
    assert_eq!(
        marqant.header.metadata,
        vec![
            ("format".to_string(), "marqant".to_string()),
            ("encoding".to_string(), "quantum-wave".to_string()),
        ]
    );
}

#[test]
fn marqant_rejects_bad_magic_and_truncation() {
    assert_eq!(Marqant::from_bytes(b"").unwrap_err(), M8Error::Format);
    assert_eq!(Marqant::from_bytes(b"MQ0").unwrap_err(), M8Error::Format);
    assert_eq!(Marqant::from_bytes(b"XX03rest").unwrap_err(), M8Error::Format);
    let bytes = Marqant::from_markdown("# Title\n\nBody").unwrap().to_bytes().unwrap();
    // Cut inside the header-length field.
    assert_eq!(Marqant::from_bytes(&bytes[..6]).unwrap_err(), M8Error::Format);
    // Cut inside the header block.
    assert_eq!(Marqant::from_bytes(&bytes[..20]).unwrap_err(), M8Error::Format);
}

#[test]
fn marqant_rejects_unknown_version() {
    let mut bytes = Marqant::from_markdown("# Title").unwrap().to_bytes().unwrap();
    // Byte 8 is the header version: magic (4) then header length (4).
    assert_eq!(bytes[8], 3);
    bytes[8] = 4;
    assert_eq!(Marqant::from_bytes(&bytes).unwrap_err(), M8Error::Format);
}

#[test]
fn marqant_rejects_corrupt_payload() {
    let marqant = Marqant::from_markdown("# Title").unwrap();
    let mut bytes = marqant.to_bytes().unwrap();
    let n = bytes.len();
    // Corrupt the compressed payload's tail (its checksum).
    bytes[n - 1] ^= 0xff;
    bytes[n - 2] ^= 0xff;
    let back = Marqant::from_bytes(&bytes).unwrap();
    assert_eq!(back.to_markdown().unwrap_err(), M8Error::Format);
}

#[test]
fn hex_encode_decode_roundtrip() {
    assert_eq!(hex::encode(&[0xde, 0xad, 0xbe, 0xef]), "deadbeef");
    assert_eq!(hex::encode(&[]), "");
    assert_eq!(hex::encode(&[0x00, 0x0f]), "000f");
    assert_eq!(hex::decode("deadbeef").unwrap(), vec![0xde, 0xad, 0xbe, 0xef]);
    assert_eq!(hex::decode("DEADbeEF").unwrap(), vec![0xde, 0xad, 0xbe, 0xef]);
    assert_eq!(hex::decode("").unwrap(), Vec::<u8>::new());
    assert_eq!(hex::decode("abc").unwrap_err(), M8Error::Format);
    assert_eq!(hex::decode("zz").unwrap_err(), M8Error::Format);
    let all: Vec<u8> = (0..=255).collect();
    assert_eq!(hex::decode(&hex::encode(&all)).unwrap(), all);
}

#[test]
fn sha256_matches_known_vector() {
    let digest = sha256(b"hello");
    assert_eq!(
        hex::encode(&digest),
        "2cf24dba5fb0a30e26e83b2ac5b9e29e1b161e5c1fa7425e73043362938b9824"
    );
    // Different payloads give different digests.
    assert_ne!(sha256(b"hello"), sha256(b"hello!"));
}
