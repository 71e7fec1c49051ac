[package]
name = "roki_daemon"
version = "0.1.0"
edition = "2021"
publish = false

[dependencies]
async-trait = "=0.1.92"
axum = "=0.8.9"
dirs = "=7.0.0"
hex = "=0.4.3"
hmac = "=0.12.1"
jsonschema = { version = "=0.60.2", default-features = false }
# Named only to hold `liquid` to a patch that this compiler can build.
kstring = "=2.0.2"
liquid = "=0.26.11"
notify-debouncer-mini = "=0.7.0"
regex = "=1.13.1"
reqwest = { version = "=0.12.28", default-features = false, features = ["json"] }
serde = { version = "=1.0.229", features = ["derive"] }
serde_json = "=1.0.154"
serde_yaml_ng = "=0.10.0"
sha2 = "=0.10.9"
thiserror = "=2.0.21"
time = { version = "=0.3.55", features = ["formatting", "parsing"] }
tokio = { version = "=1.54.1", features = ["full"] }
tracing = "=0.1.44"
uuid = { version = "=1.29.0", features = ["v4"] }
