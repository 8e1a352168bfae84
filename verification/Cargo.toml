[package]
name = "xmltv_guide"
version = "0.1.0"
edition = "2021"
publish = false

[dependencies]
chrono = "*"
axum = "*"
tokio = { version = "*", features = ["rt-multi-thread", "net", "macros"] }
reqwest = { version = "*", default-features = false }
zip = { version = "*", default-features = false, features = ["deflate"] }
serde = { version = "*", features = ["derive"] }
serde-xml-rs = "*"
postgres = "*"
dotenv = "*"
