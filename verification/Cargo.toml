[package]
name = "parcom_streams"
version = "0.1.0"
edition = "2021"
publish = false

[dependencies]
slab = "0.4"
pollster = "0.4"
futures = { version = "0.3", default-features = false, features = ["std", "executor"] }
tokio = { version = "1", default-features = false, features = ["sync", "rt"] }
pin-project = "1"
chrono = { version = "0.4", default-features = false, features = ["clock"] }
tempfile = "3"
opener = "0.7"
plotters = { version = "0.3", default-features = false, features = ["svg_backend", "line_series"] }
