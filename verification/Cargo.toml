[package]
name = "guroku"
version = "1.2.0"
edition = "2021"
publish = false

[dependencies]
base64 = "0.22"
sha2 = "0.10"
hex = "0.4"
node-semver = "2"
url = "2"
flate2 = "1"
tar = "0.4"
dirs = "5"
serde = { version = "1", features = ["derive"] }
serde_json = "1"
reqwest = { version = "0.12", default-features = false }
tokio = { version = "1", features = ["rt-multi-thread", "macros"] }
futures = "0.3"
clap = { version = "4", features = ["derive"] }
thiserror = "1"
tracing = "0.1"
tracing-subscriber = { version = "0.3", features = ["env-filter", "fmt"] }
glob = "0.3"
bytes = "1"
pubgrub = "0.2"
