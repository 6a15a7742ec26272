[package]
name = "botfather"
version = "0.1.0"
edition = "2021"
publish = false

[dependencies]
serde = { version = "1", features = ["derive"] }
serde_json = "1"
thiserror = "2"
url = "2"
async-trait = "0.1"
async-stream = "0.3"
futures-core = "0.3"
futures-util = "0.3"
