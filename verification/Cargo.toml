[package]
name = "pineappl"
version = "0.1.0"
edition = "2021"
publish = false

[dependencies]
anyhow = "=1.0.104"
bincode = "1.3"
either = "=1.19.0"
itertools = "=0.10.5"
lhapdf = { version = "=0.2.4", features = ["docs-only"] }
ndarray = { version = "=0.14.0", features = ["serde"] }
prettytable-rs = "=0.8.0"
serde = { version = "=1.0.229", features = ["derive"] }
typetag = "=0.1.8"

[dev-dependencies]
float-cmp = "=0.8.0"
