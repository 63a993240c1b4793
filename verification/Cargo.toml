[package]
name = "authcore"
version = "0.1.0"
edition = "2021"
publish = false

[dependencies]
bcrypt = "*"
jsonwebtoken = "9"
rand = "0.8"
uuid = { version = "1", features = ["v4"] }
