[package]
name = "vsgrep"
version = "0.1.0"
edition = "2021"
publish = false

[dependencies]
ignore = "=0.4.34"
clap = { version = "=4.6.7", features = ["derive"] }
thiserror = "=2.0.21"
ndarray = "=0.17.2"
ort = { version = "=2.0.0-rc.15", default-features = false, features = ["ndarray", "load-dynamic"] }
tokenizers = "=0.21.4"
