[package]
name = "schlep"
version = "0.1.0"
edition = "2021"
publish = false

[dependencies]
anyhow = "1"
bytes = "1"
clap = { version = "4", features = ["derive", "env"] }
futures = "0.3"
h2 = "0.4"
hdrhistogram = { version = "7", default-features = false }
http-body-util = "0.1"
hyper = { version = "1", features = ["client", "server", "http2"] }
hyper-util = { version = "0.1", features = ["tokio"] }
kubert = { version = "0.22", default-features = false, features = ["admin", "clap", "log", "prometheus-client", "shutdown"] }
prometheus-client = "0.22"
prost = "0.13"
rand = "0.8"
serde = { version = "1", features = ["derive"] }
serde_json = "1"
serde_yml = "0.0"
tokio = { version = "1", features = ["fs", "macros", "net", "rt", "rt-multi-thread", "sync", "time"] }
tokio-stream = "0.1"
tonic = { version = "0.12", default-features = false, features = ["codegen", "prost"] }
tower = { version = "0.4", features = ["buffer", "util"] }
tracing = "0.1"
