[package]
name = "dir_index"
version = "0.1.0"
edition = "2021"
publish = false

[dependencies]
bytesize = "*"
fuzzy-matcher = "0.3"
ignore = "0.4"
rayon = "1"
serde = { version = "1", features = ["derive"] }
serde_json = "1"
