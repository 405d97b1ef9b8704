[package]
name = "lane_search"
version = "0.1.0"
edition = "2021"
publish = false

[dependencies]
bitcoin = "0.27"
bitcoin_hashes = "0.10"
byteorder = "1"
crossterm = "0.25"
generic-array = "0.14"
hex = "0.4"
itertools = "0.10"
metal = "*"
rayon = "1"
reqwest = { version = "0.11", features = ["json"] }
serde_json = "1"
sha2 = { version = "0.10", features = ["compress"] }
tokio = { version = "1", features = ["full"] }
tui = "0.19"
