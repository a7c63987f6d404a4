[package]
name = "beans_core"
version = "0.1.0"
edition = "2021"
publish = false

[dependencies]
tree-sitter = "*"
tree-sitter-java = "*"
zip = { version = "*", default-features = false, features = ["deflate"] }
