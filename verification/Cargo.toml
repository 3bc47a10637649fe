[package]
name = "dbx_core"
version = "0.1.0"
edition = "2021"
publish = false

[dependencies]
sqlparser = "*"
regex = "*"
serde = { version = "1", features = ["derive"] }
serde_json = "1"
chrono = "*"
rayon = "*"
async-trait = "*"
axum = "*"
