[package]
name = "sqlite-storage"
version = "0.1.0"
edition = "2021"
publish = false

[dependencies]
diesel = { version = "=2.3.14", default-features = false, features = ["sqlite", "r2d2"] }
libsqlite3-sys = { version = "=0.38.2", features = ["bundled"] }
log = "=0.4.35"
scheduled-thread-pool = "=0.2.8"
serde_json = "=1.0.154"
thiserror = "=2.0.21"
tokio = { version = "=1.54.1", default-features = false, features = ["rt", "sync", "time"] }
