[package]
name = "ctadl_ascent"
version = "0.1.0"
edition = "2021"
publish = false

[dependencies]
anyhow = "1"
ascent = "*"
clap = { version = "4", features = ["derive"] }
env_logger = "*"
hashbrown = "*"
internment = "*"
log = "0.4"
streaming-iterator = "*"
tree-sitter = "*"
tree-sitter-c = "0.24"
tree-sitter-cpp = "*"
