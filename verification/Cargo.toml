[package]
name = "cube-lib"
version = "0.1.0"
edition = "2021"
publish = false

[dependencies]
clap = { version = "=4.6.7", features = ["derive"] }
thiserror = "=1.0.69"

[dev-dependencies]
proptest = "1"
