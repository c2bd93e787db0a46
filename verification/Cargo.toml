[package]
name = "unshroud"
version = "0.1.0"
edition = "2021"
publish = false

[dependencies]
zstd = "0.13"
serde = { version = "1", features = ["derive"] }
serde_json = "1"
toml = "0.8"
clap = { version = "4", features = ["derive", "env"] }
tokio = { version = "1", features = ["full"] }
anyhow = "1"
thiserror = "2"
mlua = { version = "0.10", features = ["lua54", "vendored"] }
metrics = "0.24"
metrics-exporter-prometheus = "0.16"
metrics-process = "2"
