[package]
name = "exif_chdate"
version = "0.1.0"
edition = "2021"
publish = false

[dependencies]
num_cpus = "1"
tokio = { version = "1", features = ["rt-multi-thread", "macros", "process", "sync"] }
