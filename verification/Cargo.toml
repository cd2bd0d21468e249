[package]
name = "oscar_io"
version = "0.1.0"
edition = "2021"
publish = false

[dependencies]
zstd = "*"
flate2 = "*"
oxilangtag = "*"
serde = { version = "*", features = ["derive"] }
serde_json = "*"
avro-rs = "*"
