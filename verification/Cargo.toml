[package]
name = "tuicr"
version = "0.1.0"
edition = "2021"
publish = false

[dependencies]
ratatui = { version = "0.29", default-features = false }
similar = "2"
unicode-segmentation = "1"
unicode-width = "0.2"
