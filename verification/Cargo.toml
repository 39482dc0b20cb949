[package]
name = "cad-jww"
version = "0.1.0"
edition = "2021"
publish = false

[dependencies]
encoding_rs = "0.8"
blake3 = "1"
serde = { version = "1", features = ["derive"] }
serde_json = "1"
thiserror = "*"
ulid = "1"
tempfile = "3"
rustix = { version = "*", features = ["fs"] }
toml = "*"
geo = "*"
rstar = "*"
