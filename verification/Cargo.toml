[package]
name = "score_topn"
version = "0.1.0"
edition = "2021"
publish = false

[dependencies]
once_cell = "=1.21.4"
pgrx = { version = "0.16.1", default-features = false, features = ["pg15"] }
serde = { version = "=1.0.229", features = ["derive"] }
