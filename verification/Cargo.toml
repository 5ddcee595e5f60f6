[package]
name = "opid_fix"
version = "0.1.0"
edition = "2021"
publish = false

[dependencies]
anyhow = "*"
async-trait = "*"
camino = "*"
clap = { version = "*", features = ["derive"] }
enum_dispatch = "*"
futures = "*"
openapiv3 = "*"
serde = { version = "*", features = ["derive"] }
serde_json = "*"
tokio = { version = "*", features = ["rt-multi-thread", "macros", "fs"] }
tree-sitter = "*"
tree-sitter-go = "*"
