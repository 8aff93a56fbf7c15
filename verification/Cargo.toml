[package]
name = "scorarium"
version = "0.1.0"
edition = "2021"
publish = false

[dependencies]
isbn = "=0.8.20261102"
url = "=2.5.8"
getrandom = "=0.3.4"
serde = { version = "=1.0.229", features = ["derive"] }
clap = { version = "4", features = ["derive", "env"] }
tracing = "0.1"
tracing-subscriber = { version = "0.3", features = ["env-filter"] }
color-eyre = "0.6"
