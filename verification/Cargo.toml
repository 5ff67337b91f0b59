[package]
name = "optimus"
version = "0.1.0"
edition = "2021"
publish = false

[dependencies]
modinverse = "*"
primal-check = "*"

[dev-dependencies]
rand = "0.8"
