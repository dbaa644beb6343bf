[package]
name = "solar_monitoring_import"
version = "0.1.0"
edition = "2021"
publish = false

[dependencies]
chrono = { version = "0.4", default-features = false, features = ["clock", "std"] }
rust_decimal = "1"
sha1 = "0.10"
hex = "0.4"
encoding_rs = "0.8"
csv = "1"
tiberius = { version = "0.12", default-features = false, features = ["tds73", "rust_decimal"] }
anyhow = "1"
async-trait = "0.1"
calamine = "*"
clap = { version = "4", features = ["derive"] }
dotenvy = "0.15"
figment = { version = "0.10", features = ["toml", "env"] }
serde = { version = "1", features = ["derive"] }
serde_json = "1"
thiserror = "*"
tokio = { version = "1", features = ["macros", "rt", "net"] }
tokio-util = { version = "0.7", features = ["compat"] }
tracing = "0.1"
tracing-appender = "0.2"
tracing-subscriber = { version = "0.3", features = ["env-filter"] }
walkdir = "2"

[dev-dependencies]
tempfile = "3"
