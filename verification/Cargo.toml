[package]
name = "pg_search"
version = "0.1.0"
edition = "2021"
publish = false

[dependencies]
pgrx = "=0.16.1"
serde = { version = "=1.0.229", features = ["derive"] }
tantivy = { version = "=0.27.0", default-features = false }
