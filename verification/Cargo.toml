[package]
name = "scip_ctags"
version = "0.1.0"
edition = "2021"
publish = false

[dependencies]
scip = "*"
serde = { version = "1", features = ["derive"] }
serde_json = "1"
