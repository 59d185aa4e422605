[package]
name = "patsh"
version = "0.1.0"
edition = "2021"
publish = false

[dependencies]
anyhow = "*"
clap = { version = "*", features = ["derive"] }
is_executable = "*"
shell-escape = "*"
tree-sitter = "*"
tree-sitter-bash = "*"
