[package]
name = "plink_bed"
version = "0.1.0"
edition = "2021"
publish = false

[dependencies]
ndarray = "*"
rayon = "*"

[dev-dependencies]
rand = "*"
