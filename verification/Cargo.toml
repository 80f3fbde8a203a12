[package]
name = "wordle_archive"
version = "0.1.0"
edition = "2021"
publish = false

[dependencies]
askama = "0.12"
async-trait = "0.1"
chrono = "0.4"
clap = { version = "4", features = ["derive"] }
form_urlencoded = "1"
http-body-util = "0.1"
hyper = { version = "1", features = ["http1", "http2", "server"] }
hyper-util = { version = "0.1", features = ["full"] }
log = "0.4"
once_cell = "1"
percent-encoding = "2"
rand = "0.8"
serde = { version = "1", features = ["derive"] }
tokio = { version = "1", features = ["full"] }
tokio-postgres = { version = "0.7", features = ["with-chrono-0_4"] }
toml = "0.5"
tracing = "0.1"
tracing-appender = "0.2"
tracing-subscriber = { version = "0.3", features = ["env-filter"] }

[dev-dependencies]
regex = "1"
