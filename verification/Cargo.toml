[package]
name = "bom_radar_rs"
version = "0.1.0"
edition = "2021"
publish = false

[dependencies]
anyhow = "1"
axum = "0.7"
image = { version = "0.24", default-features = false, features = ["gif", "png"] }
suppaftp = "5"
tokio = { version = "1", features = ["macros", "net", "rt-multi-thread"] }
