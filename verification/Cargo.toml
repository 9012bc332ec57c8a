[package]
name = "cyrillic_ime_core"
version = "0.1.0"
edition = "2021"
publish = false

[dependencies]
jni = "0.21"
once_cell = "1"
serde_json = "1"
