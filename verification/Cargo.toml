[package]
name = "canteen"
version = "0.5.0"
edition = "2021"
publish = false

[dependencies]
chrono = "0.4"
mio = { version = "1", features = ["os-poll", "net"] }
postgres = { version = "0.19", features = ["with-chrono-0_4"] }
r2d2 = "0.8"
r2d2_postgres = "0.18"
regex = "1"
rustc-serialize = "0.3"
serde = { version = "1", features = ["derive"] }
serde_json = "1"
threadpool = "1"
