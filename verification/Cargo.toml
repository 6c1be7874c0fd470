[package]
name = "rattler"
version = "0.1.0"
edition = "2021"
publish = false

[dependencies]
zstd = "=0.14.0"
sha2 = "=0.11.0"
url = "=2.5.8"
reqwest = { version = "=0.13.5", default-features = false, features = ["blocking"] }
http = "=1.5.0"
http-cache-semantics = "=3.0.0"
bincode = "=1.3.3"
serde = "=1.0.229"

[dev-dependencies]
chrono = "=0.4.45"
