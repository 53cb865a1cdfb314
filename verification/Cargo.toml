[package]
name = "embargo"
version = "0.1.0"
edition = "2021"
publish = false

[dependencies]
petgraph = "*"
dashmap = "*"
rayon = "*"
anyhow = "1"
clap = { version = "4", features = ["derive"] }
walkdir = "2"
serde = { version = "1", features = ["derive"] }
serde_json = "1"
bincode = "1"
tree-sitter = "0.20"
tree-sitter-python = "0.20"
tree-sitter-rust = "0.20"
tree-sitter-javascript = "0.20"
tree-sitter-typescript = "0.20"
tree-sitter-java = "0.20"
tree-sitter-go = "0.20"
tree-sitter-cpp = "0.20"
tree-sitter-c-sharp = "0.20"
