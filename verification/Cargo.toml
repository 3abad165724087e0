[package]
name = "bevy_replicon"
version = "0.1.0"
edition = "2021"
publish = false

[dependencies]
bytes = "1"
postcard = { version = "1", features = ["use-std", "experimental-derive"] }
serde = { version = "1", features = ["derive"] }
ordered-multimap = "0.7"
bincode = "1"
bitflags = "2"
bevy = { version = "0.16", default-features = false }
