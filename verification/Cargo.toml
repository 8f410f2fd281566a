[package]
name = "dreamberd_noodles_interpreter"
version = "0.1.0"
edition = "2021"
publish = false

[dependencies]
nom = "7.1"
num-bigint = "0.4"
num-traits = "0.2"
thiserror = "1.0"
anyhow = "1.0"
clap = { version = "4", features = ["derive"] }
rustyline = "12"
lazy_static = "1.4"
