[package]
name = "make-your-choice"
version = "2.1.0"
edition = "2021"
publish = false

[dependencies]
anyhow = "1"
dark-light = "1"
dirs = "5"
futures = "0.3"
gtk4 = "0.9"
libc = "0.2"
open = "5"
reqwest = { version = "0.12", default-features = false, features = ["json", "rustls-tls"] }
serde = { version = "1", features = ["derive"] }
serde_json = "1"
serde_yaml = "0.9"
tokio = { version = "1", features = ["rt-multi-thread", "net", "time", "macros", "sync"] }
