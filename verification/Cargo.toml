[package]
name = "gds_layout"
version = "0.1.0"
edition = "2021"
publish = false

[dependencies]
byteorder = "1.5"
rstar = "0.12"
serde = { version = "1", features = ["derive"] }
serde_json = "1"
tokio = { version = "1", features = ["macros", "rt-multi-thread", "net", "sync"] }
axum = { version = "0.7", features = ["multipart"] }
tower-http = { version = "0.5", features = ["cors", "fs"] }
