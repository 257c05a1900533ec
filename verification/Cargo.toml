[package]
name = "surrealdb_migration_engine"
version = "0.1.0"
edition = "2021"
publish = false

[dependencies]
chrono = "0.4"
regex = "1"
rust-embed = "8"
serde = { version = "1", features = ["derive"] }
serde_json = "1"
surrealdb = { version = "1", default-features = false, features = ["protocol-ws"] }
