[package]
name = "rbufr"
version = "0.1.0"
edition = "2021"
publish = false

[dependencies]
anyhow = "=1.0.104"
clap = { version = "4", default-features = false, features = ["derive", "std", "help", "usage", "error-context"] }
csv = "=1.4.0"
flate2 = "1"
glob = "=0.3.4"
memmap2 = "0.9"
ph = "=0.8.5"
regex = "=1.13.1"
rkyv = "0.8"
serde = { version = "=1.0.229", features = ["derive"] }
thiserror = "=2.0.21"
toml = "0.9"
