[package]
name = "rustmon"
version = "0.1.0"
edition = "2021"
publish = false

[dependencies]
crossterm = "*"
regex = "*"
rand = "0.8"
clap = { version = "*", features = ["cargo"] }
dirs = "*"
image = { version = "*", default-features = false, features = ["png"] }
once_cell = "*"
reqwest = { version = "*", default-features = false, features = ["blocking"] }
serde = { version = "*", features = ["derive"] }
serde_json = "*"
zip = { version = "*", default-features = false, features = ["deflate"] }
