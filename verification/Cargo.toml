[package]
name = "rhizome"
version = "0.1.0"
edition = "2021"
publish = false

[dependencies]
rand = "=0.8.8"
tokio = { version = "=1.54.1", features = ["rt", "net", "io-util", "sync", "time", "macros"] }
tokio-rustls = "=0.23.4"
rustls-pemfile = "=1.0.4"
rcgen = "=0.9.3"
clap = { version = "=3.2.25", features = ["derive"] }
