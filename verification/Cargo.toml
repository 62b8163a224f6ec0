[package]
name = "wither"
version = "0.1.0"
edition = "2021"
publish = false

[dependencies]
urlencoding = "2"
serde = { version = "1", features = ["derive"] }
serde_json = "1"
reqwest = { version = "0.12", default-features = false, features = ["json", "stream", "rustls-tls"] }
tokio = { version = "1", features = ["rt-multi-thread", "time", "macros"] }
rusqlite = { version = "0.31", features = ["bundled"] }
sysinfo = "0.30"
open = "5"
uuid = { version = "1", features = ["v4"] }
chrono = "0.4"
dirs-next = "2"
log = "0.4"
env_logger = "0.11"
tiny_http = "0.12"
futures-util = "0.3"
notify = "6"
winreg = "0.52"
