[package]
name = "shingetsu"
version = "0.1.0"
edition = "2021"
publish = false

[dependencies]
memchr = "=2.8.3"
shlex = "=1.3.0"
regex = "=1.13.1"
fancy-regex = "=0.20.0"
bstr = { version = "=1.13.1", default-features = false, features = ["std"] }
annotate-snippets = "=0.12.17"
time = { version = "0.3", features = ["local-offset"] }
