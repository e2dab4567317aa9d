[package]
name = "agentbox"
version = "0.1.0"
edition = "2021"
publish = false

[dependencies]
serde = { version = "1", features = ["derive"] }
serde_json = "1"
regex = "1"
quick-xml = "0.36"
urlencoding = "2"
chrono = "0.4"
rusqlite = { version = "0.31", features = ["bundled"] }
reqwest = { version = "0.12", default-features = false, features = ["json", "stream"] }
axum = "0.7"
tokio = { version = "1", features = ["rt-multi-thread", "macros", "net", "sync", "time", "process", "io-util"] }
tokio-stream = "0.1"
futures = "0.3"
bytes = "1"
uuid = { version = "1", features = ["v4"] }
zip = { version = "7", default-features = false }
dirs = "5"
log = "0.4"

