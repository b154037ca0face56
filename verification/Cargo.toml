[package]
name = "rustrade"
version = "0.1.0"
edition = "2021"
publish = false

[dependencies]
async-stream = "0.3"
chrono = "0.4"
futures = "0.3"
futures-util = "0.3"
hex = "0.4"
indexmap = "2"
parquet = { version = "*", default-features = false, features = ["snap"] }
reqwest = { version = "0.12", default-features = false, features = ["json", "stream", "rustls-tls"] }
rust_decimal = "1"
serde = { version = "1", features = ["derive"] }
serde_json = "1"
sha2 = "0.10"
smol_str = "0.3"
thiserror = "2"
tokio = { version = "1", features = ["fs", "io-util", "macros", "rt-multi-thread", "sync", "time"] }
tokio-stream = "0.1"
tokio-tungstenite = { version = "0.27", features = ["rustls-tls-webpki-roots"] }
tracing = "0.1"
url = "2"
