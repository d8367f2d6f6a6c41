[package]
name = "ws_gateway"
version = "0.1.0"
edition = "2021"
publish = false

[dependencies]
glob = "*"
uuid = { version = "*", features = ["v4"] }
actix = "*"
actix-web = "*"
actix-web-actors = "*"

[dev-dependencies]
serde_json = "*"
