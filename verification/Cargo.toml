[package]
name = "purchase_ledger"
version = "0.1.0"
edition = "2021"
publish = false

[dependencies]
calamine = "0.22"
rust_xlsxwriter = "*"
sqlx = { version = "0.8", default-features = false, features = ["runtime-tokio", "sqlite", "macros", "migrate"] }
serde = { version = "1", features = ["derive"] }
thiserror = "1"
log = "0.4"
