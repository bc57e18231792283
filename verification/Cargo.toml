[package]
name = "jbi"
version = "0.1.0"
edition = "2021"
publish = false

[dependencies]
annotate-snippets = "*"
rustyline = "*"
