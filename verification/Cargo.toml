[package]
name = "manage"
version = "0.1.1"
edition = "2021"
publish = false

[dependencies]
semver = "1"
names = "0.14"
anyhow = "1"
bollard = "0.18"
clap = { version = "4", features = ["derive"] }
comfy-table = "7"
console = "0.15"
futures = "0.3"
futures-util = "0.3"
human-panic = "2"
indicatif = "0.17"
inquire = "0.7"
reqwest = { version = "0.12", default-features = false, features = ["json", "rustls-tls"] }
rustls-pemfile = "2"
serde = { version = "1", features = ["derive"] }
serde_json = "1"
tokio = { version = "1", features = ["macros", "rt"] }
