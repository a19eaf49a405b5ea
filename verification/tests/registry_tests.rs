use m8_nexus::engine::InMemoryEngine;
use m8_nexus::m8::M8Container;
use m8_nexus::m8::M8ContentType;
use m8_nexus::nexus::M8Nexus;
use m8_nexus::nexus::Mem8Stats;

fn engine_stats() -> Mem8Stats {
    Mem8Stats { total_memories: 0, grid_dimensions: (10, 10) }
}

#[test]
fn test_server_creation() {
    // The registry comes up empty.
    let nexus = M8Nexus::new();
    let stats = nexus.stats(engine_stats());
    assert_eq!(stats.total_containers, 0);
}

#[test]
fn put_then_get_returns_identical_container() {
    let mut engine = InMemoryEngine::new();
    let mut nexus = M8Nexus::new();
    let container = M8Container::from_text("stored", 5, &mut engine).unwrap();
    let expected_data = container.data.clone();
    let expected_ts = container.header.timestamp;
    let sig = nexus.store(container);
    let got = nexus.retrieve(&sig).unwrap();
    assert_eq!(got.wave_signature, sig);
    assert_eq!(got.data, expected_data);
    assert_eq!(got.header.timestamp, expected_ts);
    assert_eq!(got.header.content_type, M8ContentType::Language);
}

#[test]
fn get_of_absent_hash_is_a_miss() {
    let nexus = M8Nexus::new();
    assert!(nexus.retrieve(&[7u8; 32]).is_none());
}

#[test]
fn overwrite_keeps_registry_size() {
    // Two containers built from byte-identical payloads collide, and the
    // second put overwrites the first.
    let mut engine = InMemoryEngine::new();
    let mut nexus = M8Nexus::new();
    let a = M8Container::from_text("hello", 5, &mut engine).unwrap();
    let b = M8Container::from_text("hello", 5, &mut engine).unwrap();
    let b_ids = b.header.memory_ids.clone();
    let sig_a = nexus.store(a);
    let stats_one = nexus.stats(engine_stats());
    assert_eq!(stats_one.total_containers, 1);
    let sig_b = nexus.store(b);
    assert_eq!(sig_a, sig_b);
    let stats_two = nexus.stats(engine_stats());
    assert_eq!(stats_two.total_containers, 1);
    assert_eq!(stats_two.type_counts.language, 1);
    // The surviving entry is the second one.
    assert_eq!(nexus.retrieve(&sig_a).unwrap().header.memory_ids, b_ids);
}

#[test]
fn stats_counts_per_tag_and_total() {
    let mut engine = InMemoryEngine::new();
    let mut nexus = M8Nexus::new();
    let text = M8Container::from_text("a text", 5, &mut engine).unwrap();
    let other = M8Container::from_text("another text", 5, &mut engine).unwrap();
    let compound = M8Container::from_compound(vec![0], [0, 0, 0], &mut engine).unwrap();
    nexus.store(text);
    nexus.store(other);
    nexus.store(compound);
    let stats = nexus.stats(engine_stats());
    assert_eq!(stats.total_containers, 3);
    assert_eq!(stats.type_counts.language, 2);
    assert_eq!(stats.type_counts.compound, 1);
    assert_eq!(stats.type_counts.marqant, 0);
    assert_eq!(stats.mem8_stats.total_memories, 0);
    assert_eq!(stats.mem8_stats.grid_dimensions, (10, 10));
}

#[test]
fn list_snapshots_every_entry() {
    let mut engine = InMemoryEngine::new();
    let mut nexus = M8Nexus::new();
    let a = M8Container::from_text("first", 5, &mut engine).unwrap();
    let b = M8Container::from_text("second", 5, &mut engine).unwrap();
    let ts_a = a.header.timestamp;
    let sig_a = nexus.store(a);
    let sig_b = nexus.store(b);
    let listing = nexus.list();
    assert_eq!(listing.len(), 2);
    let entry_a = listing.iter().find(|e| e.0 == sig_a).unwrap();
    assert_eq!(entry_a.1, M8ContentType::Language);
    assert_eq!(entry_a.2, ts_a);
    assert!(listing.iter().any(|e| e.0 == sig_b));
}
