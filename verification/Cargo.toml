[package]
name = "pulse_monitor"
version = "0.1.0"
edition = "2021"
publish = false

[dependencies]
serde_json = "1"
chrono = "0.4"
chrono-tz = "*"
tokio = { version = "1", features = ["rt-multi-thread", "macros", "time"] }
reqwest = { version = "*", default-features = false, features = ["json", "rustls-tls"] }
dotenvy = "*"
