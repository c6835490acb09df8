use std::collections::hash_map::DefaultHasher;
use std::hash::Hasher;

use stepviz::storage::{hash_text_to_id, model_key, LS_INDEX_KEY};

#[test]
fn model_key_prefixes_id() {
    assert_eq!(model_key("abc"), "stepviz:model:abc");
    assert_eq!(model_key(""), "stepviz:model:");
    assert_eq!(LS_INDEX_KEY, "stepviz:index");
}

#[test]
fn id_is_sixteen_hex_digits_of_default_hash() {
    let text = "ISO-10303-21;\nHEADER;";
    let mut h = DefaultHasher::new();
    std::hash::Hash::hash(&text, &mut h);
    let expected = format!("{:016x}", h.finish());
    let id = hash_text_to_id(text);
    assert_eq!(id, expected);
    assert_eq!(id.len(), 16);
    assert!(id.chars().all(|c| c.is_ascii_hexdigit() && !c.is_ascii_uppercase()));
}

#[test]
fn id_is_deterministic_and_content_based() {
    assert_eq!(hash_text_to_id("same"), hash_text_to_id("same"));
    assert_ne!(hash_text_to_id("same"), hash_text_to_id("other"));
    assert_ne!(hash_text_to_id("same"), "same");
}
