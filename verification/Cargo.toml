[package]
name = "twitter_client"
version = "0.1.0"
edition = "2021"
publish = false

[dependencies]
image = { version = "0.24", default-features = false, features = ["png", "jpeg", "gif"] }
egg-mode = "0.16"
tokio = { version = "1", features = ["rt", "time", "sync", "macros"] }
reqwest = { version = "0.11", features = ["json"] }
serde = { version = "1", features = ["derive"] }
toml = "0.5"
log = "0.4"
open = "2"
dotenv = "0.15"
pretty_env_logger = "0.4"
parking_lot = "0.11"
lazy_static = "1"
bytes = "1"
egui = "0.16"
epi = "0.16"
epaint = "0.16"
