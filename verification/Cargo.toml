[package]
name = "package_lib"
version = "0.1.0"
edition = "2021"
publish = false

[dependencies]
unicode-bom = "*"
serde = { version = "*", features = ["derive"] }
serde_json = "*"
git2 = "*"
clap = { version = "*", features = ["derive"] }
owo-colors = "*"
jwalk = "*"
