[package]
name = "openshell"
version = "0.1.0"
edition = "2021"
publish = false

[dependencies]
landlock = "0.4"
libc = "0.2"
miette = "7"
rcgen = "0.13"
seccompiler = "0.5"
tracing = "0.1"

[dev-dependencies]
rustls-pki-types = { version = "1", features = ["std"] }
rustls-webpki = { version = "0.103", features = ["ring", "std"] }
tempfile = "3"
