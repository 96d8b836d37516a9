[package]
name = "nt_relay"
version = "0.1.0"
edition = "2021"
publish = false

[dependencies]
rand = "=0.9.5"
thiserror = "2"
dotenvy = "0.15"
tracing = "0.1"
tracing-subscriber = { version = "0.3", features = ["env-filter"] }
tokio = { version = "1", features = ["net", "time", "macros", "rt-multi-thread", "signal"] }
