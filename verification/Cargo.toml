[package]
name = "minic"
version = "0.1.0"
edition = "2021"
publish = false

[dependencies]
clap = { version = "*", features = ["derive"] }
env_logger = "*"
graphviz-rust = "*"
libc = "*"
llvm-sys = "*"
log = "*"
