[package]
name = "rbx_util"
version = "0.1.0"
edition = "2021"
publish = false

[dependencies]
anyhow = "*"
lz4_flex = "*"
serde = { version = "*", features = ["derive"] }
serde_json = "*"
zstd = "*"
