[package]
name = "arrow_exporter"
version = "0.1.0"
edition = "2021"
publish = false

[dependencies]
arrow = { version = "*", default-features = false }
arrow-ipc = { version = "*", features = ["zstd"] }
async-trait = "0.1"
bytes = "1"
chrono = { version = "0.4", default-features = false, features = ["std"] }
futures = "0.3"
object_store = { version = "0.13", default-features = false, features = ["fs"] }
serde = { version = "1", features = ["derive"] }
serde_json = "1"
sha2 = "*"
thiserror = "2"
tokio = { version = "1", features = ["rt", "rt-multi-thread", "time"] }
uuid = { version = "1", features = ["v4", "v7"] }

[dev-dependencies]
tempfile = "3"
