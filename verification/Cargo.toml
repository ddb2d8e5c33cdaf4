[package]
name = "rainbow_table"
version = "0.1.0"
edition = "2021"
publish = false

[dependencies]
crossbeam = "*"
num_cpus = "*"
serde_json = "*"

[dev-dependencies]
md5 = "*"
rand = "*"
