[package]
name = "rms_client"
version = "0.1.0"
edition = "2021"
publish = false

[dependencies]
async-trait = "*"
chrono = "*"
hyper = "*"
prost = "*"
prost-types = "*"
rustls = { version = "*", default-features = false, features = ["std"] }
serde = { version = "*", features = ["derive"] }
thiserror = "*"
tokio = { version = "*", features = ["rt", "time", "macros"] }
tonic = "*"
tracing = "*"
