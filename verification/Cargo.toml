[package]
name = "http-server"
version = "0.1.0"
edition = "2021"
publish = false

[dependencies]
percent-encoding = "2"
http = "1"
http-auth-basic = "0.3"
mime_guess = "2"
chrono = "0.4"
hyper = { version = "1", features = ["server", "http1"] }
hyper-util = { version = "0.1", features = ["tokio"] }
http-body-util = "0.1"
bytes = "1"
tokio = { version = "1", features = ["full"] }
serde = { version = "1", features = ["derive"] }
serde_json = "1"
clap = { version = "4", features = ["derive"] }
local-ip-address = "0.6"
