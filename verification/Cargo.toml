[package]
name = "sebastian_core"
version = "0.1.0"
edition = "2021"
publish = false

[dependencies]
tl = "0.7"
url = "2"
regex = "1"
heck = "0.4"
m3u8-rs = "5"
rand = "0.8"
bytes = "1"
anyhow = "1"
log = "0.4"
env_logger = "0.10"
serde = { version = "1", features = ["derive"] }
toml = "0.5"
clap = { version = "4", features = ["derive"] }
directories = "4"
inquire = "0.6"
indicatif = "0.17"
lazy_static = "1"
tokio = { version = "1", features = ["rt", "macros"] }
reqwest = { version = "0.11", default-features = false, features = ["cookies", "rustls-tls"] }
reqwest_cookie_store = "0.6"
async-trait = "0.1"
async-recursion = "1"
