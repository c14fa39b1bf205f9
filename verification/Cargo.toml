[package]
name = "geocode_csv"
version = "1.0.0"
edition = "2021"
publish = false

[dependencies]
anyhow = "=1.0.104"
async-trait = "=0.1.92"
axum = { version = "=0.6.20", features = ["headers"] }
bb8 = "=0.8.6"
bb8-redis = "=0.13.1"
bigtable_rs = { version = "=0.2.21", default-features = false, features = ["tonic-tls-ring"] }
bincode = { version = "=2.0.1", features = ["serde"] }
clap = { version = "=4.6.7", features = ["derive"] }
csv = "=1.4.0"
futures = "=0.3.34"
http = "=0.2.12"
hyper = { version = "=0.14.32", features = ["client", "http1", "http2", "runtime", "stream", "tcp"] }
hyper-rustls = { version = "=0.24.2", features = ["http2"] }
leaky-bucket = "=1.1.2"
metrics = "=0.21.1"
metrics-exporter-prometheus = { version = "=0.12.2", default-features = false }
metrics-util = "=0.15.1"
# Not called by name: bigtable_rs builds on prost-wkt-types, and this feature
# has its build compile the protobuf definitions in Rust, so that no `protoc`
# has to be installed.
prost-wkt-types = { version = "=0.7.2", features = ["vendored-protox"] }
redis = { version = "=0.23.5", features = ["tokio-comp"] }
reqwest = { version = "=0.11.27", default-features = false, features = ["json", "rustls-tls"] }
serde = { version = "=1.0.229", features = ["derive"] }
serde_json = { version = "=1.0.154", features = ["preserve_order"] }
sha2 = "=0.10.9"
thiserror = "=1.0.69"
tokio = { version = "=1.54.1", features = ["full"] }
tokio-stream = "=0.1.19"
tracing = "=0.1.44"
tracing-subscriber = { version = "=0.3.23", features = ["env-filter", "fmt"] }
url = "=2.5.8"
