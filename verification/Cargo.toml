[package]
name = "pardon"
version = "0.1.0"
edition = "2021"
publish = false

[dependencies]
anyhow = "1"
async-openai = "0.28"
async-trait = "0.1"
axum = "0.8"
chrono = { version = "0.4", default-features = false, features = ["std"] }
clap = { version = "4", features = ["derive"] }
csv = "1"
dirs = "6"
env_logger = "0.11"
eventsource-stream = "0.2"
futures = "0.3"
image = { version = "0.25", default-features = false, features = ["png"] }
interprocess = { version = "2", features = ["tokio"] }
ksni = "0.3"
log = "0.4"
regex = "1"
reqwest = { version = "0.12", default-features = false, features = ["json", "stream", "rustls-tls"] }
rodio = { version = "0.20", default-features = false, features = ["symphonia-mp3"] }
rusqlite = { version = "0.32", features = ["bundled"] }
serde = { version = "1", features = ["derive"] }
serde_json = { version = "1", features = ["preserve_order"] }
sha1 = "0.10"
thiserror = "2"
tokio = { version = "1", features = ["full"] }
toml = "0.8"
toml_edit = "0.22"
