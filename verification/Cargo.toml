[package]
name = "fileporter"
version = "0.1.0"
edition = "2021"
publish = false

[dependencies]
blake3 = "1"
data-encoding = "2"
ed25519-dalek = { version = "2", features = ["rand_core"] }
rand_core = { version = "0.6", features = ["getrandom"] }
hex = "0.4"
uuid = "1"
x509-parser = "0.16"
serde = { version = "1", features = ["derive"] }
serde_json = "1"
thiserror = "1"
zeroize = "1"
tokio = { version = "1", features = ["rt", "net", "io-util", "time", "macros", "sync"] }
tokio-util = "0.7"
rustls = { version = "0.23", default-features = false, features = ["ring", "std", "tls12", "logging"] }
tokio-rustls = { version = "0.26", default-features = false, features = ["ring", "tls12", "logging"] }
rcgen = { version = "0.13", default-features = false, features = ["ring", "pem"] }
rusqlite = { version = "0.32", features = ["bundled"] }
filetime = "0.2"
