[package]
name = "databend_query"
version = "0.1.0"
edition = "2021"
publish = false

[dependencies]
async-trait = "=0.1.92"
axum = "=0.2.8"
chrono = { version = "0.4", default-features = false, features = ["std"] }
