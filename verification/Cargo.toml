[package]
name = "similar_images"
version = "0.1.0"
edition = "2021"
publish = false

[dependencies]
bk-tree = "0.3"
crossbeam-channel = "0.5"
hamming = "0.1"
humansize = "1"
image = "0.23"
img_hash = "3"
rayon = "1"
