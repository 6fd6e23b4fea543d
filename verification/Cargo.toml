[package]
name = "pai_harness"
version = "0.1.0"
edition = "2021"
publish = false

[dependencies]
serde = { version = "=1.0.229", features = ["derive"] }
serde_json = "=1.0.154"
sha1 = "=0.11.0"
encoding_rs = "=0.8.44"
quick-xml = "=0.42.0"
zip = "=9.2.2"
pdf-extract = "=0.12.1"
libc = "=0.2.191"
landlock = "=0.4.7"
chrono = { version = "=0.4.45", default-features = false, features = ["clock", "std"] }
uuid = { version = "=1.29.0", features = ["v7"] }
getrandom = "=0.4.3"
