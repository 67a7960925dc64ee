[package]
name = "frost"
version = "0.1.0"
edition = "2021"
publish = false

[dependencies]
anyhow = "=1.0.104"
arboard = { version = "=3.7.0", default-features = false }
byteorder = "=1.5.0"
crossterm = "=0.28.1"
lru = "=0.12.5"
odbc = "=0.17.0"
ratatui = "=0.29.0"
ropey = { version = "=1.6.1", default-features = false, features = ["simd"] }
serde = { version = "=1.0.229", features = ["derive"] }
tempfile = "=3.27.0"
toml = "=0.8.23"
unicode-width = "=0.1.14"
