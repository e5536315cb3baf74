[package]
name = "gendesk"
version = "0.1.0"
edition = "2021"
publish = false

[dependencies]
chardetng = "=0.1.17"
image = { version = "=0.25.10", default-features = false, features = ["png", "jpeg", "gif", "webp", "bmp"] }
jpeg-decoder = { version = "=0.3.2", features = ["platform_independent"] }
sqlx = { version = "=0.8.6", default-features = false, features = ["sqlite", "runtime-tokio", "macros", "migrate"] }
tokio = { version = "=1.54.1", features = ["rt", "sync", "macros", "fs", "time"] }
serde = { version = "=1.0.229", features = ["derive"] }
serde_json = "=1.0.154"
thiserror = "=1.0.69"

[dev-dependencies]
encoding_rs = "=0.8.44"
