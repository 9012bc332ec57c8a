//! Transliteration input method core: Cyrillic keystrokes to hiragana.
//!
//! The heart of the crate is a pure key-processing state machine: given the
//! composition buffer and a newly pressed key it decides whether to commit a
//! converted unit, keep composing, or clear a dead sequence. Around it sit the
//! engine state (profiles, loaded schemas, the phonetic table) and the JSON
//! forms in which that state is configured.

pub mod codec;
pub mod conversion;
pub mod engine;
pub mod error;
pub mod json;
pub mod models;

pub use error::EngineError;
pub use engine::IMEEngine;
pub use models::{ConversionResult, KanaEngine, Profile, Schema, SchemaEntry};
