[package]
name = "fusion-core"
version = "2.0.1"
edition = "2021"
publish = false

[dependencies]
moka = { version = "0.12", features = ["sync"] }
serde_json = "1"
tera = "1"
tokio = { version = "1", features = ["rt-multi-thread", "macros", "net", "signal", "time", "sync"] }
hyper = { version = "1", features = ["server", "http1"] }
hyper-util = { version = "0.1", features = ["tokio"] }
http-body-util = "0.1"
bytes = "1"
console = "0.15"
