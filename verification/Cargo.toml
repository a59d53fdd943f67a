[package]
name = "storaj_db"
version = "0.1.0"
edition = "2021"
publish = false

[dependencies]
little-collections = "*"
little-sync = "*"
kanal = "*"
rand = "0.8"
tokio = { version = "*", features = ["full"] }
