[package]
name = "gallery-backend"
version = "0.1.0"
edition = "2021"
publish = false

[dependencies]
arrayvec = "0.7"
log = "0.4"
notify = "6"
rayon = "1"
serde = { version = "1", features = ["derive"] }
tokio = { version = "1", features = ["rt-multi-thread", "sync", "macros", "time"] }
