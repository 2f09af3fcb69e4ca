[package]
name = "ztunnel"
version = "0.1.0"
edition = "2021"
publish = false

[dependencies]
base64 = "=0.22.1"
bytes = "=1.12.1"
http = "=1.5.0"
http-body-util = "=0.1.5"
hyper = { version = "=1.12.0", features = ["http1", "server", "client"] }
hyper-util = { version = "=0.1.21", features = ["tokio"] }
ipnet = "=2.12.2"
libc = "=0.2.191"
nix = { version = "=0.29.0", features = ["socket", "net", "uio"] }
prometheus-client = "=0.23.1"
regex = "=1.13.1"
reqwest = { version = "=0.12.28", default-features = false, features = ["rustls-tls"] }
serde = { version = "=1.0.229", features = ["derive"] }
serde_yaml = "=0.9.34+deprecated"
socket2 = { version = "=0.6.5", features = ["all"] }
tokio = { version = "=1.54.1", features = ["net", "rt-multi-thread", "sync", "time", "process", "macros", "fs", "io-util"] }
tonic = "=0.12.3"
tonic-health = "=0.12.3"
tower = { version = "=0.5.3", features = ["util"] }
tracing = "=0.1.44"
