[package]
name = "testprog"
version = "0.1.0"
edition = "2021"
publish = false

[dependencies]
blake3 = "=1.8.7"
serde_json = "=1.0.151"
clap = { version = "=4.6.7", features = ["derive"] }
log = { version = "=0.4.34", features = ["std"] }
nu-ansi-term = "=0.50.3"
anstyle-query = "=1.1.5"
