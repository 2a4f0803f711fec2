[package]
name = "sidemount"
version = "0.1.0"
edition = "2021"
publish = false

[dependencies]
async-trait = "0.1"
hyper = { version = "0.14", features = ["server", "http1"] }
tokio = { version = "1", features = ["net", "rt"] }
