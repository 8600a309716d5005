[package]
name = "podping"
version = "0.1.0"
edition = "2021"
publish = false

[dependencies]
hyper = { version = "=0.14.32", features = ["full"] }
tokio = { version = "1", features = ["full"] }
rusqlite = { version = "*", features = ["bundled"] }
zmq = { version = "*", features = ["vendored"] }
handlebars = "*"
serde = { version = "1", features = ["derive"] }
serde_json = "1"
url = "2"
percent-encoding = "2"
route-recognizer = "*"
drop-root = "*"
