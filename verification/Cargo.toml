[package]
name = "gravity_core"
version = "0.1.0"
edition = "2021"
publish = false

[dependencies]
anyhow = "1"
chrono = "0.4"
clap = { version = "4", features = ["derive"] }
kamadak-exif = "0.5"
rayon = "1"
regex = "1"
serde = { version = "1", features = ["derive"] }
serde_json = "1"
tabled = "*"
thiserror = "1"
unicode-normalization = "0.1"
uuid = { version = "1", features = ["v4", "serde"] }
