[package]
name = "lyceumnstubot"
version = "0.1.0"
edition = "2021"
publish = false

[dependencies]
chrono = "=0.4.45"
regex = "=1.13.1"
serde = { version = "=1.0.229", features = ["derive"] }
serde_json = "=1.0.154"
reqwest = { version = "=0.12.28", default-features = false, features = ["rustls-tls"] }
teloxide = { version = "=0.13.0", default-features = false, features = ["macros", "rustls", "ctrlc_handler"] }
tokio = { version = "=1.54.1", features = ["macros", "rt-multi-thread", "time", "sync"] }
dotenv = "=0.15.0"
log = "=0.4.35"
pretty_env_logger = "=0.5.0"
anyhow = "=1.0.104"
dptree = "=0.3.0"
takecell = "=0.1.1"
