[package]
name = "neolink"
version = "0.1.0"
edition = "2021"
publish = false

[dependencies]
uuid = { version = "=1.27.0", features = ["v4"] }
tokio = { version = "=1.53.2", features = ["full"] }
futures = "=0.3.34"
warp = { version = "=0.4.3", features = ["server", "websocket"] }
tokio-postgres = "=0.7.18"
dotenv = "=0.15.0"
libp2p = { version = "=0.56.0", default-features = false, features = ["tcp", "tokio", "noise", "yamux", "ping", "macros"] }
