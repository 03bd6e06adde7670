[package]
name = "wc_r"
version = "0.1.0"
edition = "2021"
publish = false

[dependencies]
itertools = "0.10"
rayon = "1"
structopt = "0.3"
unicode-segmentation = "1"
