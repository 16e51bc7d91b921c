[package]
name = "border_sim"
version = "0.1.0"
edition = "2021"
publish = false

[dependencies]
anyhow = "*"
encoding_rs = "*"
env_logger = "*"
llama-cpp-2 = "*"
log = "*"
