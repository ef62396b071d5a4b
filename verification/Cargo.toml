[package]
name = "blp1"
version = "0.1.0"
edition = "2021"
publish = false

[dependencies]
image = { version = "0.25", default-features = false, features = ["jpeg", "png"] }
clap = { version = "4", features = ["derive"] }
confy = "*"
serde = { version = "1", features = ["derive"] }
sys-locale = "*"
normpath = "*"
path-absolutize = "*"
dunce = "*"
directories = "*"
