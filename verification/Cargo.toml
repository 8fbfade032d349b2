[package]
name = "runtime-gatekeeper"
version = "0.1.0"
edition = "2021"
publish = false

[dependencies]
anyhow = "=1.0.104"
fs2 = "=0.4.3"
libc = "=0.2.191"
serde = { version = "=1.0.229", features = ["derive"] }
serde_json = "=1.0.154"
serde-saphyr = "=1.2.0"
sysinfo = { version = "=0.37.2", default-features = false, features = ["system"] }
tiny_http = "=0.12.0"
ureq = { version = "=2.12.1", default-features = false, features = ["json"] }
uuid = { version = "=1.29.0", features = ["v4"] }
