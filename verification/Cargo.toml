[package]
name = "dnsmark"
version = "1.0.0"
edition = "2021"
publish = false

[dependencies]
anyhow = "1"
aya = "0.13"
clap = { version = "4", features = ["derive"] }
crossterm = "0.28"
csv = "1"
hdrhistogram = { version = "7", default-features = false }
libc = "0.2"
num_cpus = "1"
parking_lot = "0.12"
rand = "0.8"
ratatui = "0.29"
rustls = { version = "0.23", default-features = false, features = ["ring", "std", "tls12"] }
serde = { version = "1", features = ["derive"] }
serde_json = "1"
tikv-jemallocator = "0.6"
tokio = { version = "1", features = ["full"] }
tokio-rustls = { version = "0.26", default-features = false, features = ["ring", "tls12"] }
tracing = "0.1"
tracing-subscriber = { version = "0.3", features = ["env-filter"] }
webpki-roots = "0.26"
