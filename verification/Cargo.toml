[package]
name = "e_lib"
version = "0.1.0"
edition = "2021"
publish = false

[dependencies]
serde = { version = "1", features = ["derive"] }
serde_json = "1"
dirs = "5"
futures-util = { version = "0.3", default-features = false, features = ["std"] }
keyring = { version = "3", default-features = false }
portable-pty = "0.8"
reqwest = { version = "0.12", default-features = false, features = ["json", "stream"] }
tokio = { version = "1", features = ["rt", "rt-multi-thread", "macros", "time", "sync"] }
tauri = { version = "2", default-features = false }
