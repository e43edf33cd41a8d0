[package]
name = "lush"
version = "0.1.0"
edition = "2021"
publish = false

[dependencies]
regex = "1"
glob = "0.3"
pkg-config = "0.3"
serde_json = "1"
clap = { version = "4", features = ["derive"] }
mlua = { version = "0.10", features = ["luajit", "vendored"] }
