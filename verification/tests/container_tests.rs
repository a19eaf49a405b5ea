use m8_nexus::M8Error;
use m8_nexus::engine::InMemoryEngine;
use m8_nexus::m8::M8Container;
use m8_nexus::m8::M8ContentType;
use m8_nexus::marqant::Marqant;

#[test]
fn test_m8_text_container() {
    let mut engine = InMemoryEngine::new();
    let container = M8Container::from_text("Hello, quantum world!", 5, &mut engine).unwrap();

    let serialized = container.to_bytes().unwrap();
    let deserialized = M8Container::from_bytes(&serialized).unwrap();

    assert_eq!(container.wave_signature, deserialized.wave_signature);
    assert_eq!(container.extract_content().unwrap(), "Hello, quantum world!");
}

#[test]
fn container_wire_roundtrip_is_exact() {
    let mut engine = InMemoryEngine::new();
    let container = M8Container::from_text("round trip", 3, &mut engine).unwrap();
    let bytes = container.to_bytes().unwrap();
    assert_eq!(&bytes[0..4], b"M8C1");
    let back = M8Container::from_bytes(&bytes).unwrap();
    assert_eq!(back.header.version, container.header.version);
    assert_eq!(back.header.content_type, container.header.content_type);
    assert_eq!(back.header.timestamp, container.header.timestamp);
    assert_eq!(back.header.memory_ids, container.header.memory_ids);
    assert_eq!(back.header.emotional_context, container.header.emotional_context);
    assert_eq!(back.header.metadata, container.header.metadata);
    assert_eq!(back.wave_signature, container.wave_signature);
    assert_eq!(back.data, container.data);
}

#[test]
fn truncated_container_always_rejected() {
    let mut engine = InMemoryEngine::new();
    let container = M8Container::from_text("truncate me", 1, &mut engine).unwrap();
    let bytes = container.to_bytes().unwrap();
    // Every strict prefix is short of some declared length and must be
    // rejected cleanly.
    for i in 0..bytes.len() {
        assert_eq!(M8Container::from_bytes(&bytes[..i]).unwrap_err(), M8Error::Format);
    }
    assert!(M8Container::from_bytes(&bytes).is_ok());
}

#[test]
fn container_rejects_bad_magic_and_unknown_tag() {
    assert_eq!(M8Container::from_bytes(b"XXC1").unwrap_err(), M8Error::Format);
    let mut engine = InMemoryEngine::new();
    let container = M8Container::from_text("tag", 1, &mut engine).unwrap();
    let mut bytes = container.to_bytes().unwrap();
    // Byte 9 is the content-type tag: magic (4), header length (4), version (1).
    assert_eq!(bytes[9], 2);
    bytes[9] = 99;
    assert_eq!(M8Container::from_bytes(&bytes).unwrap_err(), M8Error::Format);
}

#[test]
fn identical_payloads_hash_identically() {
    let mut engine = InMemoryEngine::new();
    let a = M8Container::from_text("hello", 5, &mut engine).unwrap();
    let b = M8Container::from_text("hello", 9, &mut engine).unwrap();
    let c = M8Container::from_text("other", 5, &mut engine).unwrap();
    assert_eq!(a.wave_signature, b.wave_signature);
    assert_ne!(a.wave_signature, c.wave_signature);
    // The two containers came from different engine handles.
    assert_ne!(a.header.memory_ids, b.header.memory_ids);
}

#[test]
fn from_text_fills_header() {
    let mut engine = InMemoryEngine::new();
    let container = M8Container::from_text("héllo", 5, &mut engine).unwrap();
    assert_eq!(container.header.version, 1);
    assert_eq!(container.header.content_type, M8ContentType::Language);
    assert_eq!(container.header.emotional_context, [128, 128, 128]);
    assert_eq!(container.header.memory_ids.len(), 1);
    assert_eq!(container.data, "héllo".as_bytes());
    assert_eq!(
        container.header.metadata,
        vec![
            ("source".to_string(), "text".to_string()),
            ("length".to_string(), "6".to_string()),
        ]
    );
    assert_eq!(container.extract_content().unwrap(), "héllo");
}

#[test]
fn from_marqant_recovers_markdown() {
    let mut engine = InMemoryEngine::new();
    let marqant = Marqant::from_markdown("# Title\n\nBody").unwrap();
    let container = M8Container::from_marqant(&marqant, &mut engine).unwrap();
    assert_eq!(container.header.content_type, M8ContentType::Marqant);
    assert_eq!(container.header.memory_ids.len(), 1);
    assert_eq!(container.data, marqant.to_bytes().unwrap());
    assert_eq!(container.header.metadata[0], ("source".to_string(), "marqant".to_string()));
    assert_eq!(container.header.metadata[1].0, "compression_ratio");
    assert!(container.header.metadata[1].1.contains('.'));
    assert_eq!(container.extract_content().unwrap(), "# Title\n\nBody");
}

#[test]
fn compound_binds_patterns_in_order() {
    let mut engine = InMemoryEngine::new();
    let first = M8Container::from_text("one", 1, &mut engine).unwrap();
    let second = M8Container::from_text("two", 1, &mut engine).unwrap();
    let handles = vec![first.header.memory_ids[0], second.header.memory_ids[0]];
    let container = M8Container::from_compound(handles.clone(), [1, 2, 3], &mut engine).unwrap();
    assert_eq!(container.header.content_type, M8ContentType::Compound);
    assert_eq!(container.header.memory_ids, handles);
    assert_eq!(container.header.emotional_context, [1, 2, 3]);
    // Two triples of three little-endian u32 values each.
    assert_eq!(container.data.len(), 24);
    assert_eq!(
        container.header.metadata,
        vec![
            ("source".to_string(), "compound".to_string()),
            ("memory_count".to_string(), "2".to_string()),
        ]
    );
    // The order of the handles determines the payload and so the hash.
    let swapped = M8Container::from_compound(
        vec![handles[1], handles[0]],
        [1, 2, 3],
        &mut engine,
    )
    .unwrap();
    assert_ne!(container.wave_signature, swapped.wave_signature);
    // A tag with no textual form yields the diagnostic line.
    assert_eq!(
        container.extract_content().unwrap(),
        "M8 Container: Compound with 24 bytes of data"
    );
}

#[test]
fn compression_ratio_metadata_rounds_to_nearest() {
    let mut engine = InMemoryEngine::new();
    let mut marqant = Marqant::from_markdown("# Title").unwrap();
    // Pin the sizes so the rendered ratio is known: 2/3 rounds to 0.67.
    marqant.header.original_size = 2;
    marqant.header.compressed_size = 3;
    let container = M8Container::from_marqant(&marqant, &mut engine).unwrap();
    assert_eq!(
        container.header.metadata[1],
        ("compression_ratio".to_string(), "0.67".to_string())
    );
}

#[test]
fn compound_of_no_handles_succeeds() {
    let mut engine = InMemoryEngine::new();
    let container = M8Container::from_compound(vec![], [0, 0, 0], &mut engine).unwrap();
    assert!(container.data.is_empty());
    assert_eq!(container.header.memory_ids, Vec::<u64>::new());
    assert_eq!(
        container.header.metadata[1],
        ("memory_count".to_string(), "0".to_string())
    );
}

#[test]
fn compound_unknown_handle_is_engine_error() {
    let mut engine = InMemoryEngine::new();
    let err = M8Container::from_compound(vec![42], [0, 0, 0], &mut engine).unwrap_err();
    assert_eq!(err, M8Error::Engine);
}
