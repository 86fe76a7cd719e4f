[package]
name = "pharos_server"
version = "0.1.0"
edition = "2021"
publish = false

[dependencies]
actix-files = "0.6"
actix-web = { version = "=4.18.1", default-features = false, features = ["macros"] }
actix-ws = "=0.3.1"
futures-util = "=0.3.34"
getrandom = "=0.2.17"
httpdate = "=1.0.3"
mime_guess = "=2.0.5"
serde = { version = "=1.0.229", features = ["derive"] }
serde_json = "=1.0.154"
sonic-rs = "=0.5.10"
tokio = { version = "=1.54.1", features = ["fs", "io-util", "process", "sync", "time", "rt", "macros"] }
tokio-util = { version = "=0.7.20", features = ["io"] }
uuid = { version = "=1.29.0", features = ["v4"] }
xxhash-rust = { version = "=0.8.19", features = ["xxh3"] }
