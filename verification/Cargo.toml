[package]
name = "no-clone"
version = "0.1.0"
edition = "2021"
publish = false

[dependencies]
anyhow = "=1.0.104"
base64 = "=0.22.1"
clap = { version = "=4.6.7", features = ["derive"] }
directories = "=6.0.0"
hmac = "=0.12.1"
interprocess = "=2.4.7"
libc = "=0.2.191"
rand = "=0.8.8"
rpassword = "=7.5.4"
rusqlite = { version = "=0.32.1", features = ["bundled-sqlcipher-vendored-openssl"] }
serde = { version = "=1.0.229", features = ["derive"] }
serde_json = "=1.0.154"
serde_yaml = "=0.9.34"
sha2 = "=0.10.9"
tempfile = "=3.27.0"
zeroize = { version = "=1.9.1", features = ["derive"] }
