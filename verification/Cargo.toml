[package]
name = "rust_hive"
version = "0.1.0"
edition = "2021"
publish = false

[dependencies]
duckdb = { version = "=1.20000.0", default-features = false }
reqwest = { version = "=0.13.5", default-features = false, features = ["blocking", "charset", "native-tls"] }
thiserror = "=2.0.21"
