[package]
name = "systemd_failed"
version = "0.1.0"
edition = "2021"
publish = false

[dependencies]
anyhow = "*"
clap = { version = "*", features = ["derive"] }
lettre = { version = "*", default-features = false, features = ["builder", "sendmail-transport"] }
log = "*"
rustix = { version = "*", features = ["system"] }
systemd-journal-logger = "*"
