[package]
name = "npxc"
version = "0.3.0"
edition = "2021"
publish = false

[dependencies]
anyhow = "1"
base64 = "0.22"
boringtun = "0.7"
clap = { version = "4", features = ["derive", "env"] }
directories = "*"
getrandom = "0.3"
hickory-proto = "0.26"
ipnet = "2"
ipstack = "*"
parking_lot = "0.12"
semver = "1"
serde = { version = "1", features = ["derive"] }
serde_json = "1"
tempfile = "3"
thiserror = "2"
tls-parser = "0.12"
tokio = { version = "1", features = ["full"] }
toml = "*"
tracing = "0.1"
tracing-subscriber = { version = "0.3", features = ["env-filter"] }
uuid = { version = "1", features = ["v4"] }
which = "*"
