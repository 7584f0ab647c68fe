[package]
name = "madhava"
version = "0.1.0"
edition = "2021"
publish = false

[dependencies]
num_cpus = "1"
clap = { version = "4", features = ["derive"] }
num-format = { version = "0.4", features = ["with-system-locale"] }
