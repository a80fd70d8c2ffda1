[package]
name = "pq_tunnel_core"
version = "0.1.0"
edition = "2021"
publish = false

[dependencies]
getrandom = "0.3"
hkdf = "0.12"
quinn = { version = "0.11", default-features = false, features = ["runtime-tokio", "rustls-ring"] }
rcgen = "0.12"
rustls = { version = "0.23", default-features = false, features = ["ring", "std"] }
sha2 = "0.10"
subtle = "2"
thiserror = "2"
tokio = { version = "1", features = ["macros", "net", "rt", "sync", "time"] }
tracing = "0.1"
x25519-dalek = "2"
zeroize = "1"
