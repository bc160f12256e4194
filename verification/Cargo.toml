[package]
name = "sandstone"
version = "0.1.0"
edition = "2021"
publish = false

[dependencies]
anyhow = "1"
indexmap = "2"
log = "0.4"
serde = { version = "1", features = ["derive"] }
tokio = { version = "1", default-features = false, features = ["net", "io-util"] }
zerocopy = { version = "0.7", features = ["derive"] }

[dev-dependencies]
quartz_nbt = "0.2"
