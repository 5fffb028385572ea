[package]
name = "zenoh-plugin-sequence-detector"
version = "0.1.0"
edition = "2021"
publish = false

[dependencies]
zenoh = { version = "*", default-features = false, features = ["internal", "plugins", "unstable"] }
zenoh-plugin-trait = "*"
zenoh-util = "*"
serde = { version = "1", features = ["derive"] }
serde_json = "1"
tokio = { version = "1", features = ["rt-multi-thread", "time"] }
tracing = "0.1"
lazy_static = "1"
