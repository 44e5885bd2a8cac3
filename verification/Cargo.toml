[package]
name = "forum_codec"
version = "0.1.0"
edition = "2021"
publish = false

[dependencies]
hex = "0.4"
serde = "1"
serde_derive = "1"
serde_json = "1"
