[package]
name = "stackpp"
version = "0.2.0"
edition = "2021"
publish = false

[dependencies]
rustyline = "*"
clap = { version = "*", features = ["derive"] }
