[package]
name = "diplomacy"
version = "0.1.0"
edition = "2021"
publish = false

[dependencies]
lazy_static = "1"
serde = "1"
serde_derive = "1"
serde_json = "1"
