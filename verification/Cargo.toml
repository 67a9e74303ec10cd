[package]
name = "imgconv"
version = "0.1.0"
edition = "2021"
publish = false

[dependencies]
image = "*"
mozjpeg = "*"
dirs = "*"
num_cpus = "*"
notify = "*"
walkdir = "*"
serde = { version = "*", features = ["derive"] }
serde_yaml = "*"
tokio = { version = "*", features = ["rt-multi-thread", "time", "macros"] }
