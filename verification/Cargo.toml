[package]
name = "aliyundrive_webdav"
version = "0.1.0"
edition = "2021"
publish = false

[dependencies]
anyhow = "1"
clap = { version = "3", features = ["derive", "env"] }
dav-server = "0.5"
dirs = "4"
futures-util = "0.3"
headers = "0.3"
hyper = { version = "0.14", features = ["full"] }
openssl-probe = "0.1"
qr2term = "0.3"
rustls-pemfile = "=1.0.4"
tls-listener = { version = "=0.7.0", features = ["rustls", "rt"] }
tokio = { version = "1", features = ["rt-multi-thread", "macros", "time", "fs", "io-util", "net"] }
tokio-rustls = "0.24"
tracing = "0.1"
tracing-subscriber = "0.3"
