[package]
name = "json_flattener"
version = "0.1.0"
edition = "2021"
publish = false

[dependencies]
serde_json = { version = "*", features = ["arbitrary_precision"] }
rayon = "*"
num_cpus = "*"
