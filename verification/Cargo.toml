[package]
name = "verify_digest"
version = "0.1.0"
edition = "2021"
publish = false

[dependencies]
sha2 = "*"
http = "*"
http-body = "*"
http-body-util = "*"
bytes = "*"
tower = "*"
pin-project = "*"
futures-util = "*"
