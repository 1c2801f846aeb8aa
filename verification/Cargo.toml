[package]
name = "constrained_chat"
version = "0.1.0"
edition = "2021"
publish = false

[dependencies]
csv = "*"
llguidance = "*"
llama-cpp-2 = "*"
