[package]
name = "rh_mgr"
version = "0.1.0"
edition = "2021"
publish = false

[dependencies]
md5 = "*"
flips = "*"
rusqlite = { version = "*", features = ["bundled"] }
serde = { version = "*", features = ["derive"] }
serde_json = "*"
reqwest = { version = "*", default-features = false, features = ["json", "rustls-tls"] }
tokio = { version = "*", features = ["rt-multi-thread", "macros", "time", "net"] }
tokio-tungstenite = "*"
futures-util = "*"
chrono = "*"
zip = "*"
