[package]
name = "zellig"
version = "0.1.0"
edition = "2021"
publish = false

[dependencies]
hex = "0.4"
sha2 = "0.10"
hmac = "0.12"
md5 = "0.8"
quick-xml = "0.42"
serde = { version = "1", features = ["derive"] }
serde_json = "1"
serde_yaml = "0.9"
toml = "0.9"
sonic-rs = "0.5"
figment2 = { version = "0.11", features = ["toml", "env"] }
clap = { version = "4.5", features = ["derive"] }
tokio = { version = "1", features = ["rt-multi-thread", "macros", "sync"] }
futures = "0.3"
async-trait = "0.1"
reqwest = { version = "0.12", default-features = false, features = ["json", "rustls-tls"] }
indicatif = "0.17"
whatlang = "0.16"
thiserror = "2"
