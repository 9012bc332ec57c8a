//! Schemas, the phonetic table and profiles.

use cyrillic_ime_core::models::{
    clone_profiles, clone_strings, KanaEngine, Profile, Schema, SchemaEntry,
};

fn entry(kana_key: &str) -> SchemaEntry {
    SchemaEntry { kana_key: kana_key.to_string() }
}

#[test]
fn schema_insert_and_lookup() {
    let mut schema = Schema::new();
    assert_eq!(schema.len(), 0);
    assert!(schema.get("А").is_none());
    schema.insert("А".to_string(), entry("a"));
    schema.insert("КЯ".to_string(), entry("kya"));
    assert_eq!(schema.len(), 2);
    assert!(schema.contains_key("А"));
    assert!(!schema.contains_key("К"));
    assert_eq!(schema.get("КЯ").unwrap().kana_key, "kya");
    assert_eq!(entry("kya").clone().kana_key, "kya");
}

#[test]
fn schema_insert_replaces_an_entry() {
    let mut schema = Schema::new();
    schema.insert("А".to_string(), entry("a"));
    schema.insert("А".to_string(), entry("i"));
    assert_eq!(schema.len(), 1);
    assert_eq!(schema.get("А").unwrap().kana_key, "i");
    assert!(schema.has_key_with_prefix("А"));
}

#[test]
fn schema_prefix_search() {
    let mut schema = Schema::new();
    assert!(!schema.has_key_with_prefix(""));
    schema.insert("КЯ".to_string(), entry("kya"));
    schema.insert("ДЖЬЯ".to_string(), entry("ja"));
    assert!(schema.has_key_with_prefix(""));
    assert!(schema.has_key_with_prefix("К"));
    assert!(schema.has_key_with_prefix("КЯ"));
    assert!(schema.has_key_with_prefix("ДЖЬ"));
    assert!(!schema.has_key_with_prefix("КЯА"));
    assert!(!schema.has_key_with_prefix("Я"));
    assert!(!schema.has_key_with_prefix("ЖЬ"));
    assert!(schema.has_key_with_prefix("ДЖЬЯ"));
    assert!(!schema.has_key_with_prefix("ДЖЬЯ "));
}

#[test]
fn schema_prefix_search_counts_characters_not_bytes() {
    let mut schema = Schema::new();
    schema.insert("🎌flag".to_string(), entry("flag"));
    schema.insert("Ћ".to_string(), entry("chi"));
    assert!(schema.has_key_with_prefix("🎌"));
    assert!(schema.has_key_with_prefix("🎌f"));
    assert!(schema.has_key_with_prefix("Ћ"));
    assert!(!schema.has_key_with_prefix("f"));
    assert!(!schema.has_key_with_prefix("Ћ🎌"));
}

#[test]
fn phonetic_table_renders_or_falls_back() {
    let mut table = KanaEngine::new();
    assert_eq!(table.len(), 0);
    table.insert("a".to_string(), "あ".to_string());
    table.insert("a".to_string(), "ア".to_string());
    table.insert("i".to_string(), "い".to_string());
    assert_eq!(table.len(), 2);
    assert_eq!(table.get("a").unwrap(), "ア");
    assert!(table.get("u").is_none());
    assert_eq!(table.render("i"), "い");
    assert_eq!(table.render("u"), "u");
    assert_eq!(table.render(""), "");
}

#[test]
fn profiles_are_copied_field_by_field() {
    let profile = Profile {
        id: "rus_standard".to_string(),
        name_ja: "ロシア語 (標準)".to_string(),
        name_en: "Russian (Standard)".to_string(),
        keyboard_layout: vec!["А".to_string(), "Б".to_string()],
        input_schema_id: "schema_rus_v1".to_string(),
    };
    let copy = profile.clone();
    assert_eq!(copy.id, "rus_standard");
    assert_eq!(copy.name_ja, "ロシア語 (標準)");
    assert_eq!(copy.name_en, "Russian (Standard)");
    assert_eq!(copy.keyboard_layout, vec!["А".to_string(), "Б".to_string()]);
    assert_eq!(copy.input_schema_id, "schema_rus_v1");
    let list = clone_profiles(&vec![profile, copy]);
    assert_eq!(list.len(), 2);
    assert_eq!(list[1].keyboard_layout[1], "Б");
    assert_eq!(clone_strings(&vec!["x".to_string()]), vec!["x".to_string()]);
    assert!(clone_strings(&Vec::new()).is_empty());
}
