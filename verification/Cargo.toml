[package]
name = "rust_cdn"
version = "0.1.0"
edition = "2021"
publish = false

[dependencies]
anyhow = "1"
form_urlencoded = "1"
http-body-util = "0.1"
hyper = { version = "1", features = ["http1", "server"] }
hyper-util = { version = "0.1", features = ["tokio"] }
serde = { version = "1", features = ["derive"] }
serde_json = "1"
tokio = { version = "1", features = ["fs", "macros", "net", "rt-multi-thread"] }
