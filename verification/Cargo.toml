[package]
name = "nettopbox"
version = "0.1.0"
edition = "2021"
publish = false

[dependencies]
base64 = "=0.23.1"
uuid = { version = "=1.27.0", features = ["v5"] }
url = { version = "=2.5.8", features = ["serde"] }
serde = { version = "*", features = ["derive"] }
log = "*"
env_logger = "*"
figment = { version = "*", features = ["yaml", "env"] }
actix-web = { version = "*", default-features = false, features = ["macros"] }
reqwest = { version = "*", default-features = false }
futures = "*"
async-process = "*"
async-std = "*"
bytes = "*"
