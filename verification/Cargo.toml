[package]
name = "pjsekai_soundgen_core"
version = "0.1.0"
edition = "2021"
publish = false

[dependencies]
anyhow = "1"
chrono = "0.4"
console = "=0.15.11"
dialoguer = "0.10"
dirs = "5"
enable-ansi-support = "0.2"
flate2 = "=1.1.10"
getopts = "0.2"
indicatif = "0.17"
octocrab = { version = "0.19", default-features = false, features = ["rustls"] }
once_cell = "1"
process_path = "0.1"
reqwest = { version = "0.11", default-features = false, features = ["json", "rustls-tls"] }
serde = { version = "1", features = ["derive"] }
serde_json = "1"
tokio = { version = "1", features = ["full"] }
zip = { version = "=0.6.6", default-features = false, features = ["deflate"] }
