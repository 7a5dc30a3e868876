[package]
name = "oscal_gen"
version = "0.1.0"
edition = "2021"
publish = false

[dependencies]
convert_case = "=0.12.0"
serde_json = { version = "=1.0.151", features = ["preserve_order"] }
clap = { version = "=4.6.7", features = ["derive"] }
