[package]
name = "srx_segmenter"
version = "0.1.0"
edition = "2021"
publish = false

[dependencies]
regex = "=1.13.1"
xml-rs = "0.8"
clap = { version = "=3.2.25", features = ["derive"] }
pyo3 = "=0.20.3"

[dev-dependencies]
srx = { version = "=0.1.4", features = ["from_xml"] }
