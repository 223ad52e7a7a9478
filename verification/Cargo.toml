[package]
name = "telembed"
version = "0.1.0"
edition = "2021"
publish = false

[dependencies]
anyhow = "1"
chrono = "=0.4.45"
dirs = "=7.0.0"
env_logger = "=0.11.11"
log = "0.4"
reqwest = { version = "=0.12.28", default-features = false, features = ["json", "rustls-tls"] }
rig-core = "0.15"
serde = { version = "1", features = ["derive"] }
serde_json = "1"
sha2 = "=0.10.9"
simple_logger = "=5.2.0"
takecell = "=0.1.1"
teloxide = { version = "=0.17.0", default-features = false, features = ["macros", "ctrlc_handler", "rustls"] }
tokio = { version = "1", features = ["rt-multi-thread", "macros", "time", "sync"] }
toml = "=1.1.8"
