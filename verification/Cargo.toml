[package]
name = "koala"
version = "0.1.0"
edition = "2021"
publish = false

[dependencies]
anyhow = "1"
futures = "0.3"
libc = "0.2"
log = "0.4"
memfd = "0.6"
memmap2 = "0.5"
serde = { version = "1", features = ["derive"] }
smol = "1"
structopt = "0.3"
thiserror = "1"
toml = "0.5"
tracing = "0.1"
tracing-appender = "0.2"
tracing-subscriber = { version = "0.3", features = ["env-filter"] }
