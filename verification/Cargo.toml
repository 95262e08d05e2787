[package]
name = "sentry-cli"
version = "2.46.0"
edition = "2021"
publish = false

[dependencies]
anyhow = "=1.0.104"
anylog = "=0.6.4"
chrono = "=0.4.45"
clap = "=4.6.7"
flate2 = "=1.1.10"
libc = "=0.2.191"
log = "=0.4.35"
mac-process-info = "0.2"
plist = "=1.10.3"
regex = "=1.13.1"
sentry = { version = "=0.34.0", default-features = false }
serde = { version = "=1.0.229", features = ["derive"] }
serde_json = "=1.0.154"
sha1_smol = { version = "=1.0.1", features = ["std"] }
uuid = { version = "=1.29.0", features = ["v4"] }
windows-sys = { version = "=0.61.2", features = ["Win32_Storage_FileSystem"] }
