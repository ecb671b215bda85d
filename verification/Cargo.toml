[package]
name = "pingtest"
version = "0.1.0"
edition = "2021"
publish = false

[dependencies]
calamine = "*"
rust_xlsxwriter = "*"
serde = { version = "1", features = ["derive"] }
