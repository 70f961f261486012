[package]
name = "aube_kit"
version = "0.1.0"
edition = "2021"
publish = false

[dependencies]
node-semver = "2"
serde_json = "1"
clap = { version = "4", features = ["derive"] }
tokio = { version = "1", features = ["fs", "rt"] }
napi = { version = "3", features = ["tokio_rt"] }
napi-derive = "3"
miette = "7"
