[package]
name = "stimstation"
version = "0.1.0"
edition = "2021"
publish = false

[dependencies]
rand = "=0.8.8"
glam = "=0.25.0"
palette = "=0.7.7"
ab_glyph = "=0.2.32"
once_cell = "=1.21.4"
dirs = "=5.0.1"
futures = "=0.3.34"
tokio = { version = "=1.54.1", features = ["rt"] }
reqwest = { version = "=0.11.27", default-features = false, features = ["stream", "rustls-tls", "blocking"] }
rodio = { version = "=0.17.3", default-features = false, features = ["flac"] }
anyhow = "1"
symphonia = "0.5"
h264-decoder = "*"
