[package]
name = "kero"
version = "0.1.0"
edition = "2021"
publish = false

[dependencies]
chrono = { version = "0.4", default-features = false, features = ["std", "clock"] }
clap = { version = "4", features = ["derive"] }
getrandom = "0.3"
hex = "0.4"
hmac = "0.12"
libc = "0.2"
serde = { version = "1", features = ["derive"] }
serde_jcs = "0.1"
serde_json = "1"
sha2 = "0.10"
thiserror = "2"
time = { version = "0.3", features = ["parsing", "formatting"] }
toml = "0.8"
