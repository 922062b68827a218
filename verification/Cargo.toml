[package]
name = "bilibili-converter"
version = "1.0.0"
edition = "2021"
publish = false

[dependencies]
chrono = "0.4"
flate2 = "1"
log = "0.4"
num_cpus = "1"
once_cell = "1"
regex = "1"
serde = { version = "1", features = ["derive"] }
serde_json = "1"
thiserror = "1"
tokio = { version = "1", features = ["sync", "time", "process", "io-util", "rt-multi-thread", "macros"] }
walkdir = "2"
