[package]
name = "deno_minus_v8"
version = "0.1.0"
edition = "2021"
publish = false

[dependencies]
anyhow = "1"
bytes = "1"
downcast-rs = "1.2"
encoding_rs = "0.8"
erased-serde = "0.3"
futures = "0.3"
log = "0.4"
serde = { version = "1", features = ["derive"] }
tokio = { version = "1", features = ["macros", "rt"] }
url = "2.3"

[dev-dependencies]
serde_json = "1"
