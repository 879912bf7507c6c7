[package]
name = "ss_analysis"
version = "0.1.0"
edition = "2021"
publish = false

[dependencies]
argh = "0.1"
druid = "0.8"
midly = "0.5"
plotters = { version = "0.3", default-features = false, features = ["bitmap_backend", "bitmap_encoder"] }
pyo3 = "0.18"
