[package]
name = "cargo-vet"
version = "0.1.0"
edition = "2021"
publish = false

[dependencies]
cargo_metadata = "0.14"
clap = { version = "3.1", features = ["derive"] }
clap-cargo = { version = "0.8", features = ["cargo_metadata"] }
eyre = "0.6"
flate2 = "1.0"
home = "0.5"
log = "0.4"
reqwest = { version = "0.11", default-features = false, features = ["blocking", "rustls-tls"] }
serde = { version = "1.0", features = ["derive"] }
simplelog = "0.11"
tar = "0.4"
tempfile = "3.3"
toml = "0.5"
