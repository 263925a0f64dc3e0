[package]
name = "matmul"
version = "0.1.0"
edition = "2021"
publish = false

[dependencies]
clap = { version = "3.2", features = ["derive"] }
rand = "0.8"
rayon = "1"
tokio = { version = "1", features = ["macros", "rt-multi-thread"] }
