use memos_core::entity::{EntityKgError, EntityKnowledgeGraph, Mention};
use memos_core::metadata::Metadata;
use memos_core::text::{char_is_space, normalize_name, squeeze_spaces};

fn cube() -> String {
    "cube-a".to_string()
}

fn attrs(pairs: &[(&str, &str)]) -> Metadata {
    let mut m = Metadata::new();
    for (k, v) in pairs {
        m.insert(k.to_string(), serde_json::Value::String(v.to_string()));
    }
    m
}

#[test]
fn names_are_lowercased_and_squeezed() {
    assert_eq!(normalize_name("Alice"), "alice");
    assert_eq!(normalize_name("  New   York\tCity \n"), "new york city");
    assert_eq!(normalize_name("   "), "");
    assert_eq!(normalize_name(""), "");
    assert_eq!(normalize_name("ÉCOLE"), "école");
    assert_eq!(squeeze_spaces(" a  b "), "a b");
    assert_eq!(squeeze_spaces("a\u{3000}b"), "a b");
    assert!(char_is_space(' '));
    assert!(char_is_space('\u{00A0}'));
    assert!(!char_is_space('x'));
    for c in ['\t', '\n', '\u{0B}', '\u{0C}', '\r', ' ', '\u{85}', '\u{1680}', '\u{2003}', '\u{2028}', '\u{202F}', '\u{205F}'] {
        assert_eq!(char_is_space(c), c.is_whitespace());
    }
}

#[test]
fn upsert_twice_with_folded_names_gives_one_entity() {
    let mut kg = EntityKnowledgeGraph::new();
    let a = kg.upsert_entity(&cube(), "Ada Lovelace", attrs(&[("born", "1815")])).unwrap();
    let b = kg.upsert_entity(&cube(), "  ada   LOVELACE ", attrs(&[("field", "math")])).unwrap();
    assert_eq!(a, b);
    let stats = kg.stats(&cube()).unwrap();
    assert_eq!(stats.entity_count, 1);
    let snap = kg.snapshot(&cube()).unwrap();
    assert_eq!(snap.entities.len(), 1);
    assert_eq!(snap.entities[0].name, "ada lovelace");
    assert_eq!(
        snap.entities[0].attributes.get(&"born".to_string()),
        Some(serde_json::Value::String("1815".to_string()))
    );
    assert_eq!(
        snap.entities[0].attributes.get(&"field".to_string()),
        Some(serde_json::Value::String("math".to_string()))
    );
}

#[test]
fn upsert_merges_attributes_last_write_wins() {
    let mut kg = EntityKnowledgeGraph::new();
    let a = kg.upsert_entity(&cube(), "x", attrs(&[("k", "old"), ("j", "keep")])).unwrap();
    let b = kg.upsert_entity(&cube(), "X", attrs(&[("k", "new")])).unwrap();
    assert_eq!(a, b);
    let snap = kg.snapshot(&cube()).unwrap();
    let e = &snap.entities[0];
    assert_eq!(e.attributes.get(&"k".to_string()), Some(serde_json::Value::String("new".to_string())));
    assert_eq!(e.attributes.get(&"j".to_string()), Some(serde_json::Value::String("keep".to_string())));
    assert_eq!(e.attributes.len(), 2);
}

#[test]
fn different_names_and_cubes_give_different_entities() {
    let mut kg = EntityKnowledgeGraph::new();
    let a = kg.upsert_entity(&cube(), "alpha", Metadata::new()).unwrap();
    let b = kg.upsert_entity(&cube(), "beta", Metadata::new()).unwrap();
    let c = kg.upsert_entity(&"other".to_string(), "alpha", Metadata::new()).unwrap();
    assert_ne!(a, b);
    assert_ne!(a, c);
    assert_eq!(kg.stats(&cube()).unwrap().entity_count, 2);
    assert_eq!(kg.stats(&"other".to_string()).unwrap().entity_count, 1);
}

#[test]
fn empty_name_is_refused() {
    let mut kg = EntityKnowledgeGraph::new();
    assert_eq!(kg.upsert_entity(&cube(), "  \t ", Metadata::new()), Err(EntityKgError::InvalidArgument));
    assert_eq!(kg.stats(&cube()).err(), Some(EntityKgError::NotFound));
}

#[test]
fn link_mention_is_idempotent() {
    let mut kg = EntityKnowledgeGraph::new();
    let e = kg.upsert_entity(&cube(), "alpha", Metadata::new()).unwrap();
    assert_eq!(kg.link_mention(&cube(), e, 42), Ok(()));
    assert_eq!(kg.link_mention(&cube(), e, 42), Ok(()));
    assert_eq!(kg.link_mention(&cube(), e, 43), Ok(()));
    let stats = kg.stats(&cube()).unwrap();
    assert_eq!(stats.mention_count, 2);
    let snap = kg.snapshot(&cube()).unwrap();
    assert_eq!(
        snap.mentions,
        vec![Mention { entity_id: e, memory_id: 42 }, Mention { entity_id: e, memory_id: 43 }]
    );
}

#[test]
fn link_mention_needs_cube_and_entity() {
    let mut kg = EntityKnowledgeGraph::new();
    let e = kg.upsert_entity(&cube(), "alpha", Metadata::new()).unwrap();
    assert_eq!(kg.link_mention(&cube(), e + 1, 1), Err(EntityKgError::NotFound));
    assert_eq!(kg.link_mention(&"nowhere".to_string(), e, 1), Err(EntityKgError::NotFound));
    assert_eq!(kg.snapshot(&"nowhere".to_string()).err(), Some(EntityKgError::NotFound));
}

#[test]
fn snapshot_does_not_see_later_writes() {
    let mut kg = EntityKnowledgeGraph::new();
    kg.upsert_entity(&cube(), "alpha", Metadata::new()).unwrap();
    let snap = kg.snapshot(&cube()).unwrap();
    kg.upsert_entity(&cube(), "beta", Metadata::new()).unwrap();
    assert_eq!(snap.entities.len(), 1);
    assert_eq!(kg.snapshot(&cube()).unwrap().entities.len(), 2);
}
