[package]
name = "ir_affinity"
version = "0.1.0"
edition = "2021"
publish = false

[dependencies]
chrono = { version = "*", default-features = false, features = ["clock"] }
directories = "*"
sqlx = { version = "*", default-features = false, features = ["sqlite", "runtime-tokio"] }
sysinfo = "*"
tokio = { version = "*", features = ["rt-multi-thread", "macros", "time", "sync"] }
