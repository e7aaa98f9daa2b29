[package]
name = "thundertray"
version = "1.1.0"
edition = "2021"
publish = false

[dependencies]
clap = { version = "4", features = ["derive"] }
dirs = "6"
ksni = "0.3"
serde = { version = "1", features = ["derive"] }
serde_json = "1"
shlex = "1"
tempfile = "3"
tiny-skia = "0.11"
tokio = { version = "1", features = ["rt-multi-thread", "macros", "process", "time", "signal", "sync"] }
tokio-util = "0.7"
toml = "0.8"
tracing = "0.1"
tracing-subscriber = { version = "0.3", features = ["env-filter"] }
zbus = "5"
